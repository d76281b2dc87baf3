//! The API-key entries in the OS keychain: their names, and what a
//! lookup says about whether a key is stored.

use vstd::prelude::*;
use vstd::string::StringExecFns;

verus! {

/// The keychain service every entry lives under.
pub const SERVICE: &'static str = "pf2e-companion";

/// The keychain entry name for a provider's API key: `<provider>_api_key`.
pub fn key_name(provider: &str) -> (r: String)
    ensures
        r@ == provider@ + "_api_key"@,
{
    let mut r = provider.to_owned();
    r.append("_api_key");
    r
}

/// Whether a keychain lookup (`Ok(None)` when no entry exists, `Err` when
/// the keychain could not be read) found a stored key.
pub fn has_key(lookup: &Result<Option<String>, String>) -> (r: bool)
    ensures
        r == (*lookup matches Ok(Some(_))),
{
    match lookup {
        Ok(Some(_)) => true,
        _ => false,
    }
}

} // verus!
