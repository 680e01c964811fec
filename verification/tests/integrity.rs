use my_finances::akahu::{AkahuAccount, AkahuBalance};
use my_finances::ledger::Ledger;
use my_finances::model::{AddManualAccountRequest, AddManualValueRequest};
use my_finances::Balance;

fn money(x: f64) -> Balance {
    Balance::from_bits(x.to_bits())
}

fn sum(v: &Vec<Balance>) -> Balance {
    money(v.iter().map(|b| f64::from_bits(b.to_bits())).sum())
}

fn check(ledger: &Ledger) {
    assert!(ledger.is_well_formed());
    for v in &ledger.values {
        assert!(ledger.accounts.iter().any(|a| a.id == v.account_id));
    }
}

#[test]
fn every_value_belongs_to_an_account() {
    let mut ledger = Ledger::new();
    assert!(ledger.reconcile(&Vec::new(), "2024-07-01", sum).is_empty());
    check(&ledger);
    let house = ledger
        .add_manual_account(AddManualAccountRequest {
            name: "House".to_string(),
            account_type: "Property".to_string(),
            institution: "Self".to_string(),
        })
        .unwrap();
    check(&ledger);
    let entry = AddManualValueRequest { account_id: house.id.clone(), balance: money(9.0) };
    assert_eq!(ledger.add_manual_account_value(entry, "2024-07-01", sum), Ok(()));
    check(&ledger);
    let fetched = AkahuAccount {
        id: "acc".to_string(),
        name: "Everyday".to_string(),
        account_type: None,
        connection: None,
        balance: Some(AkahuBalance { current: Some(money(4.0)), currency: None }),
    };
    assert!(ledger.store_fetched(&vec![fetched], "2024-07-02", sum).is_ok());
    check(&ledger);
    assert_eq!(ledger.toggle_ignore_account("acc", "2024-07-02", sum), Ok(true));
    check(&ledger);
    assert!(ledger.delete_last_manual_value(&house.id, "2024-07-02", sum).is_ok());
    check(&ledger);
    let copy = ledger.clone();
    let mut fresh = Ledger::new();
    assert_eq!(fresh.reconcile(&vec![copy.clone()], "2024-07-03", sum), vec![None]);
    check(&fresh);
    assert_eq!(fresh.accounts, copy.accounts);
    assert_eq!(fresh.values.len(), copy.values.len());
}
