//! The key-value store's error type and the rules its HTTP client follows.

use vstd::prelude::*;
use vstd::string::StringExecFns;

verus! {

/// What can go wrong when talking to the key-value store.
#[derive(Debug, Clone)]
pub enum KvError {
    Network(String),
    Serialization(String),
    NotFound(String),
    Conflict(String),
    Unauthorized,
    Other(String),
}

/// How the store's answer to a request is read.
#[derive(Clone, Copy, Debug, PartialEq, Eq, Structural)]
pub enum KvStatus {
    /// 404: the key holds no value.
    Missing,
    /// 2xx.
    Success,
    /// Any other status.
    Failed,
}

pub open spec fn spec_kv_status(status: u16) -> KvStatus {
    if status == 404 {
        KvStatus::Missing
    } else if 200 <= status && status <= 299 {
        KvStatus::Success
    } else {
        KvStatus::Failed
    }
}

/// Classifies a status code returned by the store.
pub fn kv_status(status: u16) -> (r: KvStatus)
    ensures
        r == spec_kv_status(status),
{
    if status == 404 {
        KvStatus::Missing
    } else if 200 <= status && status <= 299 {
        KvStatus::Success
    } else {
        KvStatus::Failed
    }
}

/// The address of a key's value in a namespace of an account.
pub open spec fn spec_value_url(account_id: Seq<char>, namespace_id: Seq<char>, key: Seq<char>) -> Seq<char> {
    "https://api.cloudflare.com/client/v4/accounts/"@ + account_id + "/storage/kv/namespaces/"@
        + namespace_id + "/values/"@ + key
}

/// Builds the address of a key's value.
pub fn value_url(account_id: &str, namespace_id: &str, key: &str) -> (r: String)
    ensures
        r@ == spec_value_url(account_id@, namespace_id@, key@),
{
    let mut r = String::from_str("https://api.cloudflare.com/client/v4/accounts/");
    r.append(account_id);
    r.append("/storage/kv/namespaces/");
    r.append(namespace_id);
    r.append("/values/");
    r.append(key);
    r
}

} // verus!
