//! Names and strings: UTF-16LE on the wire, `String` in memory.

use crate::error::{Fault, Nd2Error};
use crate::le::{le_u16_at, u16_at};
use crate::types::experiment::text_of;
use vstd::prelude::*;
use vstd::string::StrSliceExecFns;
use vstd::string::StringExecFns;

verus! {

/// Whether a code unit is the first half of a surrogate pair.
pub open spec fn is_high_surrogate(unit: u16) -> bool {
    0xD800 <= unit <= 0xDBFF
}

/// Whether a code unit is the second half of a surrogate pair.
pub open spec fn is_low_surrogate(unit: u16) -> bool {
    0xDC00 <= unit <= 0xDFFF
}

/// The code point that a surrogate pair spells.
pub open spec fn pair_code_point(high: u16, low: u16) -> u32 {
    (0x1_0000 + (high - 0xD800) * 0x400 + (low - 0xDC00)) as u32
}

/// The text that UTF-16 code units spell: a unit outside the surrogate
/// range is a character, a high surrogate with the low surrogate that
/// follows it is a character, and any other surrogate makes the whole
/// invalid.
pub open spec fn decode_utf16(units: Seq<u16>) -> Option<Seq<char>>
    decreases units.len(),
{
    if units.len() == 0 {
        Some(Seq::empty())
    } else if !is_high_surrogate(units[0]) && !is_low_surrogate(units[0]) {
        match decode_utf16(units.skip(1)) {
            Some(rest) => Some(seq![units[0] as u32 as char] + rest),
            None => None,
        }
    } else if is_high_surrogate(units[0]) && units.len() >= 2 && is_low_surrogate(units[1]) {
        match decode_utf16(units.skip(2)) {
            Some(rest) => Some(seq![pair_code_point(units[0], units[1]) as char] + rest),
            None => None,
        }
    } else {
        None
    }
}

/// The `n` little-endian code units that `data` holds from `at` on.
pub open spec fn units_at(data: Seq<u8>, at: int, n: nat) -> Seq<u16> {
    Seq::new(n, |i: int| le_u16_at(data, at + 2 * i))
}

/// `text` without the NUL characters at its end.
pub open spec fn trim_nuls(text: Seq<char>) -> Seq<char>
    decreases text.len(),
{
    if text.len() > 0 && text.last() == '\0' {
        trim_nuls(text.drop_last())
    } else {
        text
    }
}

/// Whether a character is lower case, as `char::is_lowercase` decides
/// it from the Unicode tables.
pub uninterp spec fn is_lowercase_char(c: char) -> bool;

/// Whether a character is a lower-case letter: among the ASCII
/// characters the letters `a` to `z`, and beyond them what
/// `char::is_lowercase` decides.
pub open spec fn is_lowercase_letter(c: char) -> bool {
    if c as u32 <= 0x7f {
        0x61 <= c as u32 <= 0x7a
    } else {
        is_lowercase_char(c)
    }
}

/// `name` without the run of lower-case letters and underscores that it
/// starts with.
pub open spec fn strip_prefix(name: Seq<char>) -> Seq<char>
    decreases name.len(),
{
    if name.len() > 0 && (is_lowercase_letter(name[0]) || name[0] == '_') {
        strip_prefix(name.skip(1))
    } else {
        name
    }
}

/// Calls `String::from_utf16`, which std documents to decode UTF-16 and
/// to fail where the units hold invalid data, that is an unpaired
/// surrogate.
#[verifier::external_body]
fn string_from_utf16(units: &[u16]) -> (text: Option<String>)
    ensures
        text_of(text) == decode_utf16(units@),
{
    match String::from_utf16(units) {
        Ok(s) => Some(s),
        Err(_) => None,
    }
}

/// Calls `char::is_lowercase`, which decides by the Unicode property
/// Lowercase. Of the ASCII characters exactly the letters `a` to `z`
/// have that property; beyond them the contract only names the result.
#[verifier::external_body]
fn char_is_lowercase(c: char) -> (yes: bool)
    ensures
        yes == is_lowercase_char(c),
        c as u32 <= 0x7f ==> yes == (0x61 <= c as u32 <= 0x7a),
{
    c.is_lowercase()
}

/// Reads `n` code units from `at` on.
pub fn read_units(data: &[u8], at: usize, n: usize) -> (units: Vec<u16>)
    requires
        at + 2 * n <= data@.len(),
    ensures
        units@ == units_at(data@, at as int, n as nat),
{
    let mut units: Vec<u16> = Vec::new();
    let mut i: usize = 0;
    while i < n
        invariant
            at + 2 * n <= data@.len(),
            i <= n,
            units@.len() == i,
            forall|k: int| 0 <= k < i ==> units@[k] == le_u16_at(data@, at + 2 * k),
        decreases n - i,
    {
        let total = data.len();
        match u16_at(data, at + 2 * i) {
            Some(u) => {
                units.push(u);
            },
            None => {
                assert(false);
            },
        }
        i += 1;
    }
    assert(units@ =~= units_at(data@, at as int, n as nat));
    units
}

/// Decodes UTF-16LE bytes; an odd byte at the end is passed over.
pub fn decode_utf16_le(bytes: &[u8]) -> (decoded: Result<String, Nd2Error>)
    ensures
        match decoded {
            Ok(s) => decode_utf16(units_at(bytes@, 0, (bytes@.len() / 2) as nat)) == Some(s@),
            Err(e) => {
                &&& decode_utf16(units_at(bytes@, 0, (bytes@.len() / 2) as nat)) is None
                &&& e@ == Fault::Utf16Decode
            },
        },
{
    let units = read_units(bytes, 0, bytes.len() / 2);
    match string_from_utf16(units.as_slice()) {
        Some(s) => Ok(s),
        None => Err(Nd2Error::Utf16Decode(String::from_str("invalid utf-16: lone surrogate found"))),
    }
}

/// Drops the NUL characters at the end of a string.
pub fn trim_trailing_nuls(text: &str) -> (trimmed: String)
    ensures
        trimmed@ == trim_nuls(text@),
{
    let mut end = text.unicode_len();
    assert(text@.subrange(0, end as int) =~= text@);
    while end > 0 && text.get_char(end - 1) == '\0'
        invariant
            end <= text@.len(),
            trim_nuls(text@) == trim_nuls(text@.subrange(0, end as int)),
        decreases end,
    {
        assert(text@.subrange(0, end as int).drop_last() =~= text@.subrange(0, end - 1));
        end -= 1;
    }
    text.substring_char(0, end).to_owned()
}

/// Drops the run of lower-case letters and underscores that a name
/// starts with, as in `uiWidth`, which becomes `Width`.
pub fn strip_lowercase_prefix(s: &str) -> (stripped: String)
    ensures
        stripped@ == strip_prefix(s@),
{
    let n = s.unicode_len();
    let mut start: usize = 0;
    assert(s@.subrange(0, n as int) =~= s@);
    while start < n && (char_is_lowercase(s.get_char(start)) || s.get_char(start) == '_')
        invariant
            start <= n,
            n == s@.len(),
            strip_prefix(s@) == strip_prefix(s@.subrange(start as int, n as int)),
        decreases n - start,
    {
        assert(s@.subrange(start as int, n as int).skip(1) =~= s@.subrange(start + 1, n as int));
        start += 1;
    }
    s.substring_char(start, n).to_owned()
}

} // verus!
