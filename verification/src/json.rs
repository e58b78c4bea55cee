use vstd::prelude::*;

verus! {

/// The error of `serde_json`, opaque to the verifier.
#[verifier::external_type_specification]
#[verifier::external_body]
pub struct ExJsonError(serde_json::Error);

/// The JSON text that stands for an account: what `serde_json::to_string`
/// gives for the triple of its address, shard and balance.
pub uninterp spec fn account_json(addr: usize, shard_id: usize, balance: u128) -> Seq<char>;

/// The account that a JSON text stands for, if it stands for one: what
/// `serde_json::from_str` reads from it as a triple of address, shard and
/// balance.
pub uninterp spec fn account_of_json(text: Seq<char>) -> Option<(usize, usize, u128)>;

/// Calls `serde_json::to_string` on the triple. Trusted: the call succeeds
/// (the writer is a vector and the triple holds integers only), the text is
/// the one named `account_json`, and `serde_json::from_str` reads the same
/// triple back from it.
#[verifier::external_body]
pub(crate) fn account_to_json(addr: usize, shard_id: usize, balance: u128) -> (text: Result<
    String,
    serde_json::Error,
>)
    ensures
        text is Ok,
        text->Ok_0@ == account_json(addr, shard_id, balance),
        account_of_json(text->Ok_0@) == Some((addr, shard_id, balance)),
{
    serde_json::to_string(&(addr, shard_id, balance))
}

/// Calls `serde_json::from_str` for a triple of address, shard and balance.
/// Trusted: the outcome is the one named `account_of_json`, an error where
/// the text stands for no such triple.
#[verifier::external_body]
pub(crate) fn account_from_json(text: &str) -> (account: Result<
    (usize, usize, u128),
    serde_json::Error,
>)
    ensures
        match account {
            Ok(triple) => account_of_json(text@) == Some(triple),
            Err(_) => account_of_json(text@) is None,
        },
{
    serde_json::from_str::<(usize, usize, u128)>(text)
}

} // verus!
