//! Which replies of Akahu are used, and what is said of the others.
use vstd::prelude::*;

use crate::akahu::{AkahuAccount, AkahuApiResponse, AkahuCall, AkahuRefreshItem, Reply};
use crate::ledger::LedgerData;

verus! {

/// A reply is used exactly when it came with a status from 200 to 299, could be
/// read, and tells success.
pub proof fn law_when_a_reply_is_used<T>(call: AkahuCall, reply: Reply<T>)
    ensures
        crate::akahu::reply_refusal(call, reply) is None <==> match reply {
            Reply::Unsent(_) => false,
            Reply::Unread(_) => false,
            Reply::Received { status, body, parsed } => 200 <= status && status <= 299 && parsed
                is Ok && parsed->Ok_0.success,
        },
        crate::akahu::reply_refusal(call, reply) is None ==> reply is Received
            && crate::akahu::response_of(reply) == Some(reply->parsed->Ok_0),
{
}

/// Each call goes to an address of its own, that for the status of a refresh with
/// its identifier at the end.
pub proof fn law_addresses_of_calls(call: AkahuCall)
    ensures
        call is StartRefresh ==> call.url() == "https://api.akahu.io/v1/refresh"@,
        call is RefreshStatus ==> call.url() == "https://api.akahu.io/v1/refresh/"@ + call->id@,
        call is ListAccounts ==> call.url() == "https://api.akahu.io/v1/accounts"@,
{
}

/// Each call has messages of its own for a request that fails and a body that
/// cannot be read, and they end with the reason.
pub proof fn law_failed_requests_tell_why<T>(call: AkahuCall, reply: Reply<T>)
    ensures
        reply is Unsent ==> crate::akahu::reply_refusal(call, reply) == Some(
            match call {
                AkahuCall::StartRefresh => "HTTP error triggering refresh: "@,
                AkahuCall::RefreshStatus { id } => "HTTP error checking refresh: "@,
                AkahuCall::ListAccounts => "HTTP error fetching accounts: "@,
            } + reply->Unsent_0@,
        ),
        reply is Unread ==> crate::akahu::reply_refusal(call, reply) == Some(
            match call {
                AkahuCall::StartRefresh => "Failed to read refresh response: "@,
                AkahuCall::RefreshStatus { id } => "Failed to read refresh status: "@,
                AkahuCall::ListAccounts => "Failed to read accounts response: "@,
            } + reply->Unread_0@,
        ),
{
}

/// An unsuccessful response gives its own message, or says that the error is
/// unknown if it has none.
pub proof fn law_unsuccessful_responses_tell_why<T>(call: AkahuCall, reply: Reply<T>)
    requires
        reply is Received,
        200 <= reply->status <= 299,
        reply->parsed is Ok,
        !reply->parsed->Ok_0.success,
    ensures
        reply->parsed->Ok_0.message is Some ==> crate::akahu::reply_refusal(call, reply) == Some(
            reply->parsed->Ok_0.message->0@,
        ),
        reply->parsed->Ok_0.message is None ==> crate::akahu::reply_refusal(call, reply) == Some(
            "Unknown error"@,
        ),
{
}

/// A reply with another status is refused with the number of that status, and one
/// that could not be parsed with the reason. Both messages quote the body, whole
/// if it has at most 200 bytes.
pub proof fn law_refusals_quote_the_body<T>(call: AkahuCall, reply: Reply<T>)
    requires
        reply is Received,
        vstd::utf8::encode_utf8(reply->body@).len() <= 200,
    ensures
        !(200 <= reply->status <= 299) ==> exists|numeral: Seq<char>|
            {
                &&& #[trigger] crate::outcomes::text::numeral_value(numeral) == reply->status
                &&& crate::akahu::reply_refusal(call, reply) == Some(
                    match call {
                        AkahuCall::StartRefresh => "Akahu refresh returned HTTP "@,
                        AkahuCall::RefreshStatus { id } => "Refresh status HTTP "@,
                        AkahuCall::ListAccounts => "Akahu accounts returned HTTP "@,
                    } + numeral + ": "@ + reply->body@,
                )
            },
        200 <= reply->status <= 299 && reply->parsed is Err ==> crate::akahu::reply_refusal(
            call,
            reply,
        ) == Some(
            match call {
                AkahuCall::StartRefresh => "Failed to parse refresh response: "@,
                AkahuCall::RefreshStatus { id } => "Failed to parse refresh status: "@,
                AkahuCall::ListAccounts => "Failed to parse accounts response: "@,
            } + reply->parsed->Err_0@ + ". Body: "@ + reply->body@,
        ),
{
    let n = reply->status as nat;
    crate::outcomes::text::law_numerals_tell_their_number(n);
    let numeral = crate::text::decimal(n);
    assert(crate::outcomes::text::numeral_value(numeral) == reply->status);
}

/// A started refresh is known by the identifier of the item in the response, and
/// its status is the one of that item. Accounts are those in the response, and
/// none if it has no list.
pub proof fn law_what_responses_tell(
    refresh: AkahuApiResponse<AkahuRefreshItem>,
    list: AkahuApiResponse<AkahuAccount>,
)
    ensures
        crate::akahu::started_refresh(refresh) is Some <==> refresh.item is Some,
        refresh.item is Some ==> crate::akahu::started_refresh(refresh) == Some(
            refresh.item->0.id@,
        ),
        crate::akahu::refresh_status(refresh) is Some <==> refresh.item is Some
            && refresh.item->0.status is Some,
        refresh.item is Some && refresh.item->0.status is Some ==> crate::akahu::refresh_status(
            refresh,
        ) == Some(refresh.item->0.status->0@),
        list.items is Some ==> crate::akahu::listed_accounts(list) == list.items->0@,
        list.items is None ==> crate::akahu::listed_accounts(list).len() == 0,
{
}

/// Both credentials come out of the keychain, or both out of the environment. The
/// keychain is passed over exactly when one of its two is missing.
pub proof fn law_credentials_come_from_one_place(
    stored_id: Option<Seq<char>>,
    stored_token: Option<Seq<char>>,
    env_id: Option<Seq<char>>,
    env_token: Option<Seq<char>>,
)
    ensures
        ({
            let chosen = crate::akahu::credentials_spec(stored_id, stored_token, env_id, env_token);
            let stored = stored_id is Some && stored_token is Some;
            let env = env_id is Some && env_token is Some;
            &&& chosen is Some <==> stored || env
            &&& stored ==> chosen == Some((stored_id->0, stored_token->0))
            &&& !stored && env ==> chosen == Some((env_id->0, env_token->0))
        }),
{
}

/// A fetch of the day is known exactly when an entry of the log has that day.
pub proof fn law_logged_days(d: LedgerData, day: Seq<char>)
    ensures
        crate::merge::has_fetch(d.fetches, day) <==> exists|i: int|
            0 <= i < d.fetches.len() && (#[trigger] d.fetches[i]).fetched_at == day,
{
}

} // verus!
