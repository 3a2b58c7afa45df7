//! The value that the sign-in auto-start entry holds: the program's path in
//! double quotes, stored as a zero-terminated UTF-16 string.
use vstd::prelude::*;

use crate::ipc::{utf16_encode, wide};

verus! {

/// A path wrapped in double quotes, so that spaces in it survive.
pub fn quote_path(path: &str) -> (quoted: String)
    ensures
        quoted@ == "\""@ + path@ + "\""@,
{
    let mut quoted = String::from_str("\"");
    quoted.append(path);
    quoted.append("\"");
    quoted
}

/// The bytes of a sequence of UTF-16 code units, each unit low byte first.
pub open spec fn utf16_le_bytes(units: Seq<u16>) -> Seq<u8>
    decreases units.len(),
{
    if units.len() == 0 {
        Seq::empty()
    } else {
        utf16_le_bytes(units.drop_last()) + seq![
            (units.last() % 256) as u8,
            (units.last() / 256) as u8,
        ]
    }
}

/// The bytes of a string value as the registry stores it: the text as
/// UTF-16, low byte first, with a terminating zero unit.
pub fn registry_string_bytes(value: &str) -> (bytes: Vec<u8>)
    ensures
        bytes@ == utf16_le_bytes(utf16_encode(value@).push(0u16)),
{
    let units = wide(value);
    let mut bytes: Vec<u8> = Vec::new();
    let mut i: usize = 0;
    while i < units.len()
        invariant
            i <= units@.len(),
            bytes@ == utf16_le_bytes(units@.take(i as int)),
        decreases units@.len() - i,
    {
        let u = units[i];
        bytes.push((u % 256) as u8);
        bytes.push((u / 256) as u8);
        assert(units@.take(i + 1).drop_last() =~= units@.take(i as int));
        assert(units@.take(i + 1).last() == u);
        i = i + 1;
    }
    assert(units@.take(units@.len() as int) =~= units@);
    bytes
}

/// The system's code for a value that does not exist.
pub const ERROR_FILE_NOT_FOUND: u32 = 2;

/// Whether removing the auto-start entry succeeded, given the system error
/// the removal failed with, if any: an entry that was not there counts as
/// removed, so that turning auto-start off twice is no error.
pub fn removal_succeeded(error_code: Option<u32>) -> (ok: bool)
    ensures
        ok == (error_code is None || error_code == Some(ERROR_FILE_NOT_FOUND)),
{
    match error_code {
        None => true,
        Some(code) => code == ERROR_FILE_NOT_FOUND,
    }
}

} // verus!
