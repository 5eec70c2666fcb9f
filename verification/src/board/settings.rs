//! What the user types into the forms.

use vstd::prelude::*;
use vstd::string::*;
use crate::engine::uri;
use crate::text;
use crate::util;

verus! {

/// The shortest passphrase that is accepted, in characters.
pub const MIN_PASSPHRASE: usize = 8;

/// The largest size limit that can be given, in GiB.
pub const MAX_GIB: u64 = 17_179_869_183;

/// What is wrong with a new passphrase, if anything is.
pub open spec fn passphrase_fault(unprotected: bool, pass: Seq<char>, again: Seq<char>) -> Option<
    Seq<char>,
> {
    if unprotected {
        None
    } else if pass.len() < MIN_PASSPHRASE {
        Some("Пароль должен быть не короче 8 символов"@)
    } else if pass != again {
        Some("Пароли не совпадают"@)
    } else {
        None
    }
}

/// Whether a new key may be stored: without a passphrase if the user wants it
/// so, else with one that is long enough and was typed twice.
pub fn check_passphrase(unprotected: bool, pass: &str, again: &str) -> (r: Result<(), String>)
    ensures
        match r {
            Ok(_) => passphrase_fault(unprotected, pass@, again@) is None,
            Err(why) => passphrase_fault(unprotected, pass@, again@) == Some(why@),
        },
{
    if unprotected {
        return Ok(());
    }
    if text::to_chars(pass).len() < MIN_PASSPHRASE {
        return Err("Пароль должен быть не короче 8 символов".to_string());
    }
    if !text::str_eq(pass, again) {
        return Err("Пароли не совпадают".to_string());
    }
    Ok(())
}

/// The name of this device that a text gives.
pub open spec fn chosen_name(raw: Seq<char>) -> Seq<char> {
    let name = util::clamped(text::trim(raw), 32);
    if name.len() == 0 {
        "SyncMob PC"@
    } else {
        name
    }
}

/// See [`chosen_name`].
pub fn device_name(raw: &str) -> (r: String)
    ensures
        r@ == chosen_name(raw@),
{
    let name = util::clamp_str(text::trim_str(raw).as_str(), 32);
    if name.as_str().is_empty() {
        "SyncMob PC".to_string()
    } else {
        name
    }
}

/// A size limit in whole GiB, as it is shown.
pub fn limit_text(bytes: u64) -> (r: String)
    ensures
        r@ == text::decimal(bytes as nat / 0x4000_0000),
{
    text::decimal_text(bytes / 0x4000_0000)
}

/// Whether a text gives a number of GiB that is too large for a size limit.
pub open spec fn too_many_gib(s: Seq<char>) -> bool {
    uri::number_value(s, u64::MAX as nat) matches Some(n) && n > MAX_GIB
}

/// See [`too_many_gib`].
pub fn is_too_many_gib(s: &str) -> (r: bool)
    ensures
        r == too_many_gib(s@),
{
    match uri::parse_number(s, u64::MAX) {
        Some(n) => n > MAX_GIB,
        None => false,
    }
}

/// The size limit in bytes that a text gives in GiB, if it gives one.
pub fn limit_bytes(s: &str) -> (r: Option<u64>)
    requires
        !too_many_gib(s@),
    ensures
        match r {
            Some(b) => uri::number_value(s@, u64::MAX as nat) matches Some(n) && b == n
                * 0x4000_0000,
            None => uri::number_value(s@, u64::MAX as nat) is None,
        },
{
    match uri::parse_number(s, u64::MAX) {
        Some(n) => Some(n * 0x4000_0000),
        None => None,
    }
}

/// A name that the user chose is never empty, has at most 32 characters and the
/// mark that it was cut, and stands in one line.
pub proof fn law_chosen_name_is_usable(raw: Seq<char>)
    ensures
        0 < chosen_name(raw).len() <= 33,
        forall|i: int|
            0 <= i < chosen_name(raw).len() ==> {
                let c = #[trigger] chosen_name(raw)[i];
                c != '\r' && c != '\n' && c != '\0'
            },
{
    reveal_strlit("SyncMob PC");
    util::law_clamped(text::trim(raw), 32);
}

} // verus!
