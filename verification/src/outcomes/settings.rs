//! What settings and paths come to.
use vstd::prelude::*;

use crate::ledger::LedgerData;

verus! {

/// A setting is there under its name with its value once it was written, and
/// nothing else changes.
pub proof fn law_writing_a_setting(d: LedgerData, key: Seq<char>, value: Seq<char>)
    ensures
        ({
            let after = d.with_setting(key, value);
            &&& after.settings.contains_key(key) && after.settings[key] == value
            &&& forall|k: Seq<char>| #[trigger]
                after.settings.contains_key(k) <==> d.settings.contains_key(k) || k == key
            &&& forall|k: Seq<char>| #[trigger]
                d.settings.contains_key(k) && k != key ==> after.settings[k] == d.settings[k]
            &&& after.accounts == d.accounts
            &&& after.values == d.values
            &&& after.last_value_id == d.last_value_id
            &&& after.fetches == d.fetches
            &&& after.last_fetch_id == d.last_fetch_id
        }),
{
}

/// A setting is read exactly where it is stored.
pub proof fn law_reading_a_setting(d: LedgerData, key: Seq<char>)
    ensures
        d.setting_value(key) is Some <==> d.settings.contains_key(key),
        d.settings.contains_key(key) ==> d.setting_value(key) == Some(d.settings[key]),
{
}

/// Balances are fetched on launch exactly when the setting is there and says so
/// to the letter.
pub proof fn law_when_balances_are_fetched_on_launch(d: LedgerData)
    ensures
        d.autofetch() <==> d.settings.contains_key("autofetch"@) && d.settings["autofetch"@]
            == "true"@,
{
}

/// Whether the path does not end with a slash.
pub open spec fn no_slash_at_the_end(path: Seq<char>) -> bool {
    path.len() == 0 || path.last() != '/'
}

/// A joined path is the base, one slash, and the rest, whether or not the base
/// ends with that slash. With no base it is the rest.
pub proof fn law_joining_paths(base: Seq<char>, rest: Seq<char>)
    ensures
        base.len() == 0 ==> crate::paths::join_spec(base, rest) == rest,
        base.len() > 0 && no_slash_at_the_end(base) ==> crate::paths::join_spec(base, rest)
            == base.push('/') + rest,
        base.len() > 0 && !no_slash_at_the_end(base) ==> crate::paths::join_spec(base, rest)
            == base + rest,
{
    reveal_strlit("/");
    if base.len() > 0 {
        let n = base.len() as int;
        if base.last() == '/' {
            assert(base.subrange(n - 1, n) =~= "/"@);
        } else if "/"@.is_suffix_of(base) {
            assert(base.subrange(n - 1, n)[0] == '/');
        }
        assert(base + "/"@ =~= base.push('/'));
    }
}

/// Two names under a directory make one path.
proof fn two_names_deep(dir: Seq<char>, first: Seq<char>, second: Seq<char>, both: Seq<char>)
    requires
        dir.len() > 0,
        no_slash_at_the_end(dir),
        first.len() > 0,
        no_slash_at_the_end(first),
        both == first.push('/') + second,
    ensures
        crate::paths::join_spec(crate::paths::join_spec(dir, first), second) == dir.push('/')
            + both,
{
    law_joining_paths(dir, first);
    let mid = dir.push('/') + first;
    assert(mid.last() == first.last());
    law_joining_paths(mid, second);
    assert(mid.push('/') + second =~= dir.push('/') + both);
}

/// With iCloud Drive the database is `my_finances/my_finances.db` below its root.
/// Without, it is `my_finances.db` in the data directory.
pub proof fn law_where_the_database_is(icloud: Option<String>, data_dir: Option<String>)
    ensures
        icloud is Some && icloud->0@.len() > 0 && no_slash_at_the_end(icloud->0@)
            ==> crate::paths::db_path(icloud, data_dir) == icloud->0@.push('/')
            + "my_finances/my_finances.db"@,
        icloud is None && data_dir is Some && data_dir->0@.len() > 0 && no_slash_at_the_end(
            data_dir->0@,
        ) ==> crate::paths::db_path(icloud, data_dir) == data_dir->0@.push('/')
            + "my_finances.db"@,
        icloud is None && data_dir is None ==> crate::paths::db_path(icloud, data_dir)
            == "./my_finances.db"@,
        data_dir is Some && data_dir->0@.len() > 0 && no_slash_at_the_end(data_dir->0@)
            ==> crate::paths::legacy_path(data_dir) == data_dir->0@.push('/')
            + "my_finances.db"@,
        data_dir is None ==> crate::paths::legacy_path(data_dir) == "./my_finances.db"@,
{
    reveal_strlit("my_finances/my_finances.db");
    reveal_strlit("my_finances");
    reveal_strlit("my_finances.db");
    reveal_strlit("./my_finances.db");
    reveal_strlit(".");
    assert("my_finances/my_finances.db"@ =~= "my_finances"@.push('/') + "my_finances.db"@);
    assert("./my_finances.db"@ =~= "."@.push('/') + "my_finances.db"@);
    law_joining_paths("."@, "my_finances.db"@);
    if icloud is Some && icloud->0@.len() > 0 && no_slash_at_the_end(icloud->0@) {
        two_names_deep(
            icloud->0@,
            "my_finances"@,
            "my_finances.db"@,
            "my_finances/my_finances.db"@,
        );
    }
    if data_dir is Some {
        law_joining_paths(data_dir->0@, "my_finances.db"@);
    }
}

/// iCloud Drive is `Library/Mobile Documents/com~apple~CloudDocs` below the home
/// directory.
pub proof fn law_where_icloud_drive_is(home: Seq<char>)
    requires
        home.len() > 0,
        no_slash_at_the_end(home),
    ensures
        crate::paths::icloud_root_spec(home) == home.push('/')
            + "Library/Mobile Documents/com~apple~CloudDocs"@,
{
    reveal_strlit("Library/Mobile Documents/com~apple~CloudDocs");
    reveal_strlit("Library/Mobile Documents");
    reveal_strlit("Library");
    reveal_strlit("Mobile Documents");
    reveal_strlit("com~apple~CloudDocs");
    let both = "Library/Mobile Documents"@;
    assert(both =~= "Library"@.push('/') + "Mobile Documents"@);
    two_names_deep(home, "Library"@, "Mobile Documents"@, both);
    let mid = home.push('/') + both;
    assert(mid.last() == both.last());
    law_joining_paths(mid, "com~apple~CloudDocs"@);
    assert("Library/Mobile Documents/com~apple~CloudDocs"@ =~= both.push('/')
        + "com~apple~CloudDocs"@);
    assert(mid.push('/') + "com~apple~CloudDocs"@ =~= home.push('/')
        + "Library/Mobile Documents/com~apple~CloudDocs"@);
}

/// The local database is copied exactly when there is one and nothing is at its
/// new place.
pub proof fn law_when_the_database_is_copied(target_exists: bool, legacy_exists: bool)
    ensures
        crate::paths::migration_due(target_exists, legacy_exists) <==> legacy_exists
            && !target_exists,
{
}

/// A chosen directory for backups is used exactly when it begins with a slash.
/// The default one is `my_finances/backups` below the data directory.
pub proof fn law_where_backups_are(custom: Option<String>, data_dir: Option<String>)
    ensures
        crate::paths::usable_dir(custom) <==> custom is Some && custom->0@.len() > 0
            && custom->0@[0] == '/',
        data_dir is Some && data_dir->0@.len() > 0 && no_slash_at_the_end(data_dir->0@)
            ==> crate::paths::default_backups_dir(data_dir) == data_dir->0@.push('/')
            + "my_finances/backups"@,
        data_dir is None ==> crate::paths::default_backups_dir(data_dir)
            == "./my_finances/backups"@,
{
    reveal_strlit("/");
    reveal_strlit(".");
    reveal_strlit("my_finances");
    reveal_strlit("backups");
    reveal_strlit("my_finances/backups");
    reveal_strlit("./my_finances/backups");
    assert("my_finances/backups"@ =~= "my_finances"@.push('/') + "backups"@);
    assert("./my_finances/backups"@ =~= "."@.push('/') + "my_finances/backups"@);
    two_names_deep("."@, "my_finances"@, "backups"@, "my_finances/backups"@);
    if data_dir is Some && data_dir->0@.len() > 0 && no_slash_at_the_end(data_dir->0@) {
        two_names_deep(data_dir->0@, "my_finances"@, "backups"@, "my_finances/backups"@);
    }
    if custom is Some {
        let path = custom->0@;
        if path.len() > 0 && path[0] == '/' {
            assert(path.subrange(0, 1) =~= "/"@);
        }
        if "/"@.is_prefix_of(path) {
            assert(path.subrange(0, 1)[0] == '/');
        }
    }
}

} // verus!
