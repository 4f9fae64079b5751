//! The creem API key in the operating system's keychain, through the
//! `keyring` crate. The key is only ever written there.

use vstd::prelude::*;

verus! {

/// The keychain service under which the key is filed.
pub const SERVICE: &'static str = "com.kapishdima.creembar";

/// The keychain account under which the key is filed.
pub const ACCOUNT: &'static str = "creem_api_key";

#[verifier::external_type_specification]
#[verifier::external_body]
pub struct ExEntry(keyring::Entry);

/// Why deleting the stored key failed.
pub enum DeleteFailure {
    /// There was no stored key.
    NoEntry,
    /// Any other failure, with its description.
    Other(String),
}

/// Calls `keyring::Entry::new(service, user)`; an error becomes its
/// `Display` text. Whether it succeeds depends on the platform store:
/// nothing is promised.
#[verifier::external_body]
fn entry_new(service: &str, user: &str) -> (r: Result<keyring::Entry, String>) {
    keyring::Entry::new(service, user).map_err(|e| e.to_string())
}

/// Calls `keyring::Entry::get_password`; an error becomes its `Display`
/// text. What is stored depends on the platform store: nothing is promised.
#[verifier::external_body]
fn entry_get_password(entry: &keyring::Entry) -> (r: Result<String, String>) {
    entry.get_password().map_err(|e| e.to_string())
}

/// Calls `keyring::Entry::set_password`; an error becomes its `Display`
/// text. Nothing is promised of the outcome.
#[verifier::external_body]
fn entry_set_password(entry: &keyring::Entry, password: &str) -> (r: Result<(), String>) {
    entry.set_password(password).map_err(|e| e.to_string())
}

/// Calls `keyring::Entry::delete_credential`, telling the `NoEntry` error
/// apart from the others (kept as their `Display` text). Nothing is
/// promised of the outcome.
#[verifier::external_body]
fn entry_delete_credential(entry: &keyring::Entry) -> (r: Result<(), DeleteFailure>) {
    match entry.delete_credential() {
        Ok(()) => Ok(()),
        Err(keyring::Error::NoEntry) => Err(DeleteFailure::NoEntry),
        Err(e) => Err(DeleteFailure::Other(e.to_string())),
    }
}

fn entry() -> Result<keyring::Entry, String> {
    entry_new(SERVICE, ACCOUNT)
}

/// A lookup yields a key only when it succeeded with a non-empty password.
pub open spec fn usable_key(lookup: Result<String, String>) -> Option<Seq<char>> {
    match lookup {
        Ok(k) => if k@.len() > 0 {
            Some(k@)
        } else {
            None
        },
        Err(_) => None,
    }
}

pub open spec fn optional_string_view(o: Option<String>) -> Option<Seq<char>> {
    match o {
        Some(s) => Some(s@),
        None => None,
    }
}

/// The key a keychain lookup yields: a non-empty stored password, else none.
pub fn key_from_lookup(lookup: Result<String, String>) -> (r: Option<String>)
    ensures
        optional_string_view(r) == usable_key(lookup),
{
    match lookup {
        Ok(k) => if k.as_str().unicode_len() > 0 {
            Some(k)
        } else {
            None
        },
        Err(_) => None,
    }
}

/// The stored API key, if there is a non-empty one.
pub fn get_api_key() -> (r: Option<String>)
    ensures
        r matches Some(k) ==> k@.len() > 0,
{
    match entry() {
        Ok(e) => key_from_lookup(entry_get_password(&e)),
        Err(_) => None,
    }
}

/// Stores `key` as the API key; an error carries the keychain's message.
pub fn set_api_key(key: &str) -> (r: Result<(), String>) {
    match entry() {
        Ok(e) => entry_set_password(&e, key),
        Err(m) => Err(m),
    }
}

/// Deleting succeeds when the key is gone, including when there was none.
pub open spec fn deletion_result(outcome: Result<(), DeleteFailure>) -> Result<(), Seq<char>> {
    match outcome {
        Ok(()) => Ok(()),
        Err(DeleteFailure::NoEntry) => Ok(()),
        Err(DeleteFailure::Other(m)) => Err(m@),
    }
}

pub open spec fn unit_text_result(r: Result<(), String>) -> Result<(), Seq<char>> {
    match r {
        Ok(()) => Ok(()),
        Err(m) => Err(m@),
    }
}

/// The result of a deletion: a missing key counts as deleted.
pub fn deletion_outcome(outcome: Result<(), DeleteFailure>) -> (r: Result<(), String>)
    ensures
        unit_text_result(r) == deletion_result(outcome),
{
    match outcome {
        Ok(()) => Ok(()),
        Err(DeleteFailure::NoEntry) => Ok(()),
        Err(DeleteFailure::Other(m)) => Err(m),
    }
}

/// Removes the stored API key; having none is not an error.
pub fn clear_api_key() -> (r: Result<(), String>) {
    match entry() {
        Ok(e) => deletion_outcome(entry_delete_credential(&e)),
        Err(m) => Err(m),
    }
}

} // verus!
