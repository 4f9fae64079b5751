//! What the settings window's commands decide. The API key goes into the
//! keychain and is never handed back.

use vstd::prelude::*;

use crate::creem::{error_message, CreemError};
use crate::keychain;
use crate::poller::{config_from_stored, config_value, MIN_INTERVAL};
use crate::text::{trim, trimmed};

verus! {

/// The settings as the settings window shows them.
pub struct SettingsDto {
    pub test_mode: bool,
    pub interval_secs: u64,
    pub autostart: bool,
    pub has_api_key: bool,
}

/// The settings to show, given the stored values, the autostart state and
/// the keychain's answer: `has_api_key` says whether it yielded a key.
pub fn settings_from(
    stored_test_mode: Option<bool>,
    stored_interval: Option<u64>,
    autostart: bool,
    stored_key: &Option<String>,
) -> (r: SettingsDto)
    ensures
        (r.test_mode, r.interval_secs) == config_value(stored_test_mode, stored_interval),
        r.autostart == autostart,
        r.has_api_key == stored_key.is_some(),
{
    let (test_mode, interval_secs) = config_from_stored(stored_test_mode, stored_interval);
    SettingsDto { test_mode, interval_secs, autostart, has_api_key: stored_key.is_some() }
}

/// The settings to show, from the stored values, the autostart state and
/// whether a key is in the keychain.
pub fn settings_snapshot(
    stored_test_mode: Option<bool>,
    stored_interval: Option<u64>,
    autostart: bool,
) -> (r: SettingsDto)
    ensures
        (r.test_mode, r.interval_secs) == config_value(stored_test_mode, stored_interval),
        r.autostart == autostart,
{
    let stored_key = keychain::get_api_key();
    settings_from(stored_test_mode, stored_interval, autostart, &stored_key)
}

/// What saving the settings does: the values to store (the interval raised
/// to at least `MIN_INTERVAL`), and whether the notification baseline must
/// be reset because the mode changed.
pub struct SavePlan {
    pub test_mode: bool,
    pub interval_secs: u64,
    pub autostart: bool,
    pub reset_baseline: bool,
}

/// Plans a settings save. Switching between test and production mode
/// changes which transactions exist, so it resets the baseline.
pub fn plan_save_settings(previous_test_mode: bool, test_mode: bool, interval_secs: u64, autostart: bool) -> (r: SavePlan)
    ensures
        r.test_mode == test_mode,
        r.interval_secs == if interval_secs < MIN_INTERVAL { MIN_INTERVAL } else { interval_secs },
        r.autostart == autostart,
        r.reset_baseline == (previous_test_mode != test_mode),
{
    SavePlan {
        test_mode,
        interval_secs: if interval_secs < MIN_INTERVAL { MIN_INTERVAL } else { interval_secs },
        autostart,
        reset_baseline: previous_test_mode != test_mode,
    }
}

/// The key that a new API key is stored as: the key trimmed, or the error
/// "API key is empty" when nothing is left.
pub open spec fn storable_key(api_key: Seq<char>) -> Result<Seq<char>, Seq<char>> {
    if trimmed(api_key).len() == 0 {
        Err("API key is empty"@)
    } else {
        Ok(trimmed(api_key))
    }
}

/// The key to hand to the keychain for a typed API key: the key trimmed,
/// refused with "API key is empty" exactly when nothing is left.
pub fn key_to_store(api_key: &str) -> (r: Result<&str, String>)
    ensures
        r is Err <==> trimmed(api_key@).len() == 0,
        match r {
            Ok(k) => storable_key(api_key@) == Ok::<Seq<char>, Seq<char>>(k@),
            Err(m) => storable_key(api_key@) == Err::<Seq<char>, Seq<char>>(m@),
        },
{
    let key = trim(api_key);
    if key.unicode_len() == 0 {
        Err(String::from_str("API key is empty"))
    } else {
        Ok(key)
    }
}

/// Stores a new API key, trimmed (as `key_to_store` gives it); a key that
/// is empty once trimmed is refused with "API key is empty" and never
/// reaches the keychain. Otherwise the keychain's answer is returned.
pub fn set_api_key(api_key: &str) -> (r: Result<(), String>)
    ensures
        trimmed(api_key@).len() == 0 ==> (r matches Err(m) && m@ == "API key is empty"@),
{
    match key_to_store(api_key) {
        Ok(key) => keychain::set_api_key(key),
        Err(m) => Err(m),
    }
}

/// The key to test with when none was typed in: the stored one, or the
/// error "No API key set".
pub fn stored_key_or_error(stored: Option<String>) -> (r: Result<String, String>)
    ensures
        match stored {
            Some(k) => r matches Ok(v) && v@ == k@,
            None => r matches Err(m) && m@ == "No API key set"@,
        },
{
    match stored {
        Some(k) => Ok(k),
        None => Err(String::from_str("No API key set")),
    }
}

/// The typed key, trimmed, when it is not blank.
pub open spec fn typed_key(api_key: Option<String>) -> Option<Seq<char>> {
    match api_key {
        Some(k) => if trimmed(k@).len() > 0 {
            Some(trimmed(k@))
        } else {
            None
        },
        None => None,
    }
}

/// The key a connection test uses: the typed key, trimmed, when it is not
/// blank; otherwise the stored key, or "No API key set".
pub fn connection_key(api_key: Option<String>) -> (r: Result<String, String>)
    ensures
        match typed_key(api_key) {
            Some(t) => r matches Ok(v) && v@ == t,
            None => match r {
                Ok(v) => v@.len() > 0,
                Err(m) => m@ == "No API key set"@,
            },
        },
{
    match &api_key {
        Some(k) => {
            let t = trim(k.as_str());
            if t.unicode_len() > 0 {
                return Ok(String::from_str(t));
            }
        },
        None => {},
    }
    stored_key_or_error(keychain::get_api_key())
}

/// What a connection test reports: the number of transactions fetched,
/// "Invalid API key" for a refused key, or the error's message.
pub open spec fn connection_report(r: Result<usize, CreemError>) -> Result<usize, Seq<char>> {
    match r {
        Ok(n) => Ok(n),
        Err(CreemError::Unauthorized) => Err("Invalid API key"@),
        Err(e) => Err(error_message(e@)),
    }
}

pub open spec fn count_result_view(r: Result<usize, String>) -> Result<usize, Seq<char>> {
    match r {
        Ok(n) => Ok(n),
        Err(m) => Err(m@),
    }
}

/// Turns the outcome of a one-transaction fetch into the test's answer.
pub fn connection_result(r: Result<usize, CreemError>) -> (out: Result<usize, String>)
    ensures
        count_result_view(out) == connection_report(r),
{
    match r {
        Ok(n) => Ok(n),
        Err(CreemError::Unauthorized) => Err(String::from_str("Invalid API key")),
        Err(e) => Err(e.message()),
    }
}

} // verus!
