//! CLX-Lite: a self-describing stream of typed, named records that spells
//! a tree of values.
//!
//! Every record starts with its type code and the length of its name in
//! UTF-16 code units, then the name, then a payload that depends on the
//! type. A level holds records of its own; a byte array may hold a whole
//! stream; a compress record turns the rest of the stream into a zlib
//! stream that holds another stream.

use crate::constants::{
    CLX_BOOL, CLX_BYTE_ARRAY, CLX_COMPRESS, CLX_DEPRECATED, CLX_DOUBLE, CLX_END, CLX_INT32,
    CLX_INT64, CLX_LEVEL, CLX_STRING, CLX_UINT32, CLX_UINT64, CLX_UNKNOWN, CLX_VOID_POINTER,
};
use crate::error::{Fault, Nd2Error};
use crate::inflate::{inflate, zlib_inflated};
use crate::le::{
    copy_range, i32_at, i64_at, in_bounds, le_i32_at, le_i64_at, le_u32_at, le_u64_at, u32_at,
    u64_at,
};
use crate::parse::text::{
    decode_utf16, decode_utf16_le, strip_lowercase_prefix, strip_prefix, trim_nuls,
    trim_trailing_nuls, units_at,
};
use crate::parse::value::{
    distinct_names, entries_view, items_view, lemma_lookup_index, lookup_index, ClxTree,
    ClxValue,
};
use vstd::prelude::*;
use vstd::slice::slice_subrange;

verus! {

/// How many compress records may stand inside one another. A stream
/// that nests them deeper is refused as malformed.
pub const MAX_COMPRESS_DEPTH: u32 = 16;

/// The bytes of `data` that lie at and after `pos`.
pub open spec fn remaining(data: Seq<u8>, pos: int) -> nat {
    if 0 <= pos <= data.len() {
        (data.len() - pos) as nat
    } else {
        0
    }
}

/// A record header: the name, the type code and the bytes it takes.
pub struct HeaderModel {
    pub name: Seq<char>,
    pub data_type: u8,
    pub size: nat,
}

/// The record header at `pos`.
///
/// The reserved type codes 0 and 10 are refused. A compress record has
/// no name. Any other record has a name of as many UTF-16 code units as
/// its second byte says, without the NULs at its end, and without its
/// lower-case prefix where `strip` asks for that.
pub open spec fn header_at(data: Seq<u8>, pos: int, strip: bool) -> Result<HeaderModel, Fault> {
    if !in_bounds(data, pos, 2) {
        Err(Fault::ClxParse)
    } else {
        let data_type = data[pos];
        let name_length = data[pos + 1] as nat;
        if data_type == CLX_DEPRECATED || data_type == CLX_UNKNOWN {
            Err(Fault::ClxParse)
        } else if data_type == CLX_COMPRESS {
            Ok(HeaderModel { name: Seq::empty(), data_type, size: 2 })
        } else if !in_bounds(data, pos + 2, 2 * name_length as int) {
            Err(Fault::ClxParse)
        } else {
            match decode_utf16(units_at(data, pos + 2, name_length)) {
                Some(raw) => Ok(
                    HeaderModel {
                        name: if strip {
                            strip_prefix(trim_nuls(raw))
                        } else {
                            trim_nuls(raw)
                        },
                        data_type,
                        size: 2 + 2 * name_length,
                    },
                ),
                None => Err(Fault::Utf16Decode),
            }
        }
    }
}

/// How many code units from `pos` on precede the first that is zero,
/// counting on from `k`; none where the data ends before a zero unit.
pub open spec fn terminator_index(data: Seq<u8>, pos: int, k: nat) -> Option<nat>
    decreases remaining(data, pos + 2 * k),
{
    if !in_bounds(data, pos + 2 * k, 2) {
        None
    } else if data[pos + 2 * k] == 0 && data[pos + 2 * k + 1] == 0 {
        Some(k)
    } else {
        terminator_index(data, pos, k + 1)
    }
}

/// Whether bytes plausibly start a CLX-Lite record: a compress record,
/// or a record of a type from 1 to 11 whose name has at least two code
/// units, fits into the bytes and ends with a zero unit.
pub open spec fn looks_like_clx(data: Seq<u8>) -> bool {
    data.len() >= 2 && (data[0] == CLX_COMPRESS || {
        &&& 1 <= data[0] <= 11
        &&& data[1] >= 2
        &&& data.len() >= 2 + 2 * data[1]
        &&& data[2 * data[1] as int] == 0
        &&& data[2 * data[1] as int + 1] == 0
    })
}

/// `acc` with the record `name`, `value` put in.
///
/// A new name is added at the end. A name that is there already has its
/// value replaced, except the empty name, which collects its values in
/// an array: the second value makes an array of two with the first
/// (unless the first is an array, which it extends), and later ones are
/// added to it.
pub open spec fn put(acc: Seq<(Seq<char>, ClxTree)>, name: Seq<char>, value: ClxTree) -> Seq<
    (Seq<char>, ClxTree),
> {
    match lookup_index(acc, name) {
        None => acc.push((name, value)),
        Some(i) => if name.len() == 0 {
            match acc[i].1 {
                ClxTree::Array(items) => acc.update(i, (name, ClxTree::Array(items.push(value)))),
                other => acc.update(i, (name, ClxTree::Array(seq![other, value]))),
            }
        } else {
            acc.update(i, (name, value))
        },
    }
}

/// What a level resolves to: the array itself where the records gave an
/// object whose only entry has the empty name and an array as its value,
/// and else what the records gave.
pub open spec fn promote(t: ClxTree) -> ClxTree {
    match t {
        ClxTree::Object(entries) => if entries.len() == 1 && entries[0].0.len() == 0 {
            match entries[0].1 {
                ClxTree::Array(items) => ClxTree::Array(items),
                _ => t,
            }
        } else {
            t
        },
        _ => t,
    }
}

/// The payload of a record of type `data_type` at `pos`: its value and
/// the bytes it takes.
///
/// Scalars are little-endian. A string runs up to and including its
/// first zero code unit. A byte array is its length in eight bytes and
/// then that many bytes; where they look like a CLX-Lite stream and
/// decode as one, the decoded tree stands in their place. A level is its
/// record count in four bytes, eight bytes that are passed over, its
/// records, and eight more bytes for each record, as far as the data
/// reaches.
#[verifier::opaque]
pub open spec fn value_at(data: Seq<u8>, pos: int, data_type: u8, strip: bool, depth: nat) -> Result<
    (ClxTree, nat),
    Fault,
>
    decreases depth, data.len(), remaining(data, pos), 1nat,
{
    if data_type == CLX_BOOL {
        if in_bounds(data, pos, 1) {
            Ok((ClxTree::Bool(data[pos] != 0), 1))
        } else {
            Err(Fault::ClxParse)
        }
    } else if data_type == CLX_INT32 {
        if in_bounds(data, pos, 4) {
            Ok((ClxTree::Int(le_i32_at(data, pos) as i64), 4))
        } else {
            Err(Fault::ClxParse)
        }
    } else if data_type == CLX_UINT32 {
        if in_bounds(data, pos, 4) {
            Ok((ClxTree::UInt(le_u32_at(data, pos) as u64), 4))
        } else {
            Err(Fault::ClxParse)
        }
    } else if data_type == CLX_INT64 {
        if in_bounds(data, pos, 8) {
            Ok((ClxTree::Int(le_i64_at(data, pos)), 8))
        } else {
            Err(Fault::ClxParse)
        }
    } else if data_type == CLX_UINT64 || data_type == CLX_VOID_POINTER {
        if in_bounds(data, pos, 8) {
            Ok((ClxTree::UInt(le_u64_at(data, pos)), 8))
        } else {
            Err(Fault::ClxParse)
        }
    } else if data_type == CLX_DOUBLE {
        if in_bounds(data, pos, 8) {
            Ok((ClxTree::Float(le_u64_at(data, pos)), 8))
        } else {
            Err(Fault::ClxParse)
        }
    } else if data_type == CLX_STRING {
        match terminator_index(data, pos, 0) {
            Some(k) => match decode_utf16(units_at(data, pos, k + 1)) {
                Some(raw) => Ok((ClxTree::String(trim_nuls(raw)), 2 * (k + 1))),
                None => Err(Fault::Utf16Decode),
            },
            None => Err(Fault::ClxParse),
        }
    } else if data_type == CLX_BYTE_ARRAY {
        if !in_bounds(data, pos, 8) {
            Err(Fault::ClxParse)
        } else {
            let size = le_u64_at(data, pos) as nat;
            if !in_bounds(data, pos + 8, size as int) {
                Err(Fault::ClxParse)
            } else {
                let bytes = data.subrange(pos + 8, pos + 8 + size);
                let nested = if looks_like_clx(bytes) {
                    records(bytes, 0, 1, Seq::empty(), strip, depth)
                } else {
                    Err(Fault::ClxParse)
                };
                match nested {
                    Ok((tree, _)) => Ok((tree, 8 + size)),
                    Err(_) => Ok((ClxTree::ByteArray(bytes), 8 + size)),
                }
            }
        }
    } else if data_type == CLX_LEVEL {
        if !in_bounds(data, pos, 12) {
            Err(Fault::ClxParse)
        } else {
            let count = le_u32_at(data, pos) as nat;
            match records(data, pos + 12, count, Seq::empty(), strip, depth) {
                Ok((tree, used)) => {
                    let table = 8 * count;
                    let left = remaining(data, pos + 12 + used);
                    Ok(
                        (
                            promote(tree),
                            12 + used + if table < left {
                                table
                            } else {
                                left
                            },
                        ),
                    )
                },
                Err(f) => Err(f),
            }
        }
    } else {
        Err(Fault::UnsupportedClxType(data_type))
    }
}

/// Up to `count` records from `pos` on, put into `acc` one after the
/// other: the object they make and the bytes they take.
///
/// A header of type `0xFF` ends the block early. A compress record ends
/// it too: the bytes after the ten that follow its header are inflated
/// and decoded as a stream of one record, and that tree is the result,
/// whatever `acc` holds. Compress records may stand inside one another
/// `depth` deep.
#[verifier::opaque]
pub open spec fn records(
    data: Seq<u8>,
    pos: int,
    count: nat,
    acc: Seq<(Seq<char>, ClxTree)>,
    strip: bool,
    depth: nat,
) -> Result<(ClxTree, nat), Fault>
    decreases depth, data.len(), remaining(data, pos), 0nat,
{
    if count == 0 {
        Ok((ClxTree::Object(acc), 0))
    } else {
        match header_at(data, pos, strip) {
            Err(f) => Err(f),
            Ok(header) => if header.data_type == CLX_END {
                Ok((ClxTree::Object(acc), header.size))
            } else if header.data_type == CLX_COMPRESS {
                if depth == 0 {
                    Err(Fault::ClxParse)
                } else {
                    let start = if pos + 12 <= data.len() {
                        pos + 12
                    } else {
                        data.len() as int
                    };
                    match zlib_inflated(data.subrange(start, data.len() as int)) {
                        Some(inner) => match records(
                            inner,
                            0,
                            1,
                            Seq::empty(),
                            strip,
                            (depth - 1) as nat,
                        ) {
                            Ok((tree, _)) => Ok((tree, remaining(data, pos))),
                            Err(f) => Err(f),
                        },
                        None => Err(Fault::Decompression),
                    }
                }
            } else {
                match value_at(data, pos + header.size, header.data_type, strip, depth) {
                    Err(f) => Err(f),
                    Ok((value, used)) => match records(
                        data,
                        pos + header.size + used,
                        (count - 1) as nat,
                        put(acc, header.name, value),
                        strip,
                        depth,
                    ) {
                        Ok((tree, rest)) => Ok((tree, header.size + used + rest)),
                        Err(f) => Err(f),
                    },
                }
            },
        }
    }
}

/// The tree that a CLX-Lite stream spells: that of its first record.
pub open spec fn decoded(data: Seq<u8>, strip: bool, depth: nat) -> Result<ClxTree, Fault> {
    match records(data, 0, 1, Seq::empty(), strip, depth) {
        Ok((tree, _)) => Ok(tree),
        Err(f) => Err(f),
    }
}

/// A result that took `by` more bytes.
pub open spec fn advanced(r: Result<(ClxTree, nat), Fault>, by: nat) -> Result<
    (ClxTree, nat),
    Fault,
> {
    match r {
        Ok((tree, used)) => Ok((tree, used + by)),
        Err(f) => Err(f),
    }
}

/// Whether a step that started at `start` gave what the stream spells:
/// the value with the position after it, or the fault.
pub open spec fn step_gives(
    outcome: Result<(ClxValue, usize), Nd2Error>,
    start: int,
    expected: Result<(ClxTree, nat), Fault>,
) -> bool {
    match outcome {
        Ok((value, next)) => next >= start && expected == Ok::<(ClxTree, nat), Fault>(
            (value@, (next - start) as nat),
        ),
        Err(e) => expected == Err::<(ClxTree, nat), Fault>(e@),
    }
}

/// Whether a decoding gave what the stream spells.
pub open spec fn gives(outcome: Result<ClxValue, Nd2Error>, expected: Result<ClxTree, Fault>) -> bool {
    match outcome {
        Ok(value) => expected == Ok::<ClxTree, Fault>(value@),
        Err(e) => expected == Err::<ClxTree, Fault>(e@),
    }
}

/// Code units read through a window are those of the whole.
pub proof fn lemma_units_window(data: Seq<u8>, at: int, n: nat)
    requires
        0 <= at,
        at + 2 * n <= data.len(),
    ensures
        units_at(data.subrange(at, at + 2 * n), 0, n) == units_at(data, at, n),
        (data.subrange(at, at + 2 * n).len() / 2) as nat == n,
{
    let window = data.subrange(at, at + 2 * n);
    assert forall|i: int| 0 <= i < n implies units_at(window, 0, n)[i] == units_at(data, at, n)[i] by {
        crate::le::lemma_le_value_window(data, at + 2 * i, at + 2 * n, 2);
        reveal_with_fuel(crate::le::le_value, 3);
        assert(window[2 * i] == data[at + 2 * i]);
        assert(window[2 * i + 1] == data[at + 2 * i + 1]);
    }
    assert(units_at(window, 0, n) =~= units_at(data, at, n));
}

/// Whether the entries of an object under construction are sound: no
/// name occurs twice, and every value is well formed.
pub open spec fn entries_well_formed(acc: Seq<(Seq<char>, ClxTree)>) -> bool {
    &&& distinct_names(acc)
    &&& forall|i: int| 0 <= i < acc.len() ==> (#[trigger] acc[i]).1.well_formed()
}

/// Putting a well-formed value into sound entries leaves them sound.
pub proof fn lemma_put_well_formed(acc: Seq<(Seq<char>, ClxTree)>, name: Seq<char>, value: ClxTree)
    requires
        entries_well_formed(acc),
        value.well_formed(),
    ensures
        entries_well_formed(put(acc, name, value)),
{
    reveal_with_fuel(ClxTree::well_formed, 2);
    lemma_lookup_index(acc, name);
    let next = put(acc, name, value);
    match lookup_index(acc, name) {
        None => {
            assert forall|i: int, j: int| 0 <= i < j < next.len() implies (#[trigger] next[i]).0 != (
            #[trigger] next[j]).0 by {
                assert(next[i] == acc[i]);
                if j < acc.len() {
                    assert(next[j] == acc[j]);
                }
            }
            assert forall|i: int| 0 <= i < next.len() implies (#[trigger] next[i]).1.well_formed() by {
                if i < acc.len() {
                    assert(next[i] == acc[i]);
                }
            }
        },
        Some(at) => {
            assert(acc[at].1.well_formed());
            assert forall|i: int, j: int| 0 <= i < j < next.len() implies (#[trigger] next[i]).0 != (
            #[trigger] next[j]).0 by {
                assert(next[i].0 == acc[i].0);
                assert(next[j].0 == acc[j].0);
            }
            assert forall|i: int| 0 <= i < next.len() implies (#[trigger] next[i]).1.well_formed() by {
                if i != at {
                    assert(next[i] == acc[i]);
                } else if name.len() == 0 {
                    match acc[at].1 {
                        ClxTree::Array(items) => {
                            let longer = items.push(value);
                            assert forall|k: int| 0 <= k < longer.len() implies (
                            #[trigger] longer[k]).well_formed() by {
                                if k < items.len() {
                                    assert(longer[k] == items[k]);
                                }
                            }
                        },
                        other => {
                            let pair = seq![other, value];
                            assert forall|k: int| 0 <= k < pair.len() implies (
                            #[trigger] pair[k]).well_formed() by {}
                        },
                    }
                }
            }
        },
    }
}

/// A payload that decodes gives a well-formed tree.
pub proof fn lemma_value_well_formed(data: Seq<u8>, pos: int, data_type: u8, strip: bool, depth: nat)
    ensures
        value_at(data, pos, data_type, strip, depth) matches Ok((tree, _)) ==> tree.well_formed(),
    decreases depth, data.len(), remaining(data, pos), 1nat,
{
    reveal_with_fuel(value_at, 1);
    reveal_with_fuel(records, 1);
    reveal_with_fuel(ClxTree::well_formed, 2);
    if data_type == CLX_BYTE_ARRAY {
        if in_bounds(data, pos, 8) {
            let size = le_u64_at(data, pos) as nat;
            if in_bounds(data, pos + 8, size as int) {
                let bytes = data.subrange(pos + 8, pos + 8 + size);
                if looks_like_clx(bytes) {
                    lemma_records_well_formed(bytes, 0, 1, Seq::empty(), strip, depth);
                }
            }
        }
    } else if data_type == CLX_LEVEL {
        if in_bounds(data, pos, 12) {
            let count = le_u32_at(data, pos) as nat;
            lemma_records_well_formed(data, pos + 12, count, Seq::empty(), strip, depth);
        }
    }
}

/// Records that decode into sound entries give a well-formed tree: no
/// object in it has two entries of one name.
pub proof fn lemma_records_well_formed(
    data: Seq<u8>,
    pos: int,
    count: nat,
    acc: Seq<(Seq<char>, ClxTree)>,
    strip: bool,
    depth: nat,
)
    requires
        entries_well_formed(acc),
    ensures
        records(data, pos, count, acc, strip, depth) matches Ok((tree, _)) ==> tree.well_formed(),
    decreases depth, data.len(), remaining(data, pos), 0nat,
{
    reveal_with_fuel(value_at, 1);
    reveal_with_fuel(records, 1);
    reveal_with_fuel(ClxTree::well_formed, 2);
    if count > 0 {
        match header_at(data, pos, strip) {
            Err(_) => {},
            Ok(header) => {
                if header.data_type == CLX_END {
                } else if header.data_type == CLX_COMPRESS {
                    if depth > 0 {
                        let start = if pos + 12 <= data.len() {
                            pos + 12
                        } else {
                            data.len() as int
                        };
                        match zlib_inflated(data.subrange(start, data.len() as int)) {
                            Some(inner) => {
                                lemma_records_well_formed(
                                    inner,
                                    0,
                                    1,
                                    Seq::empty(),
                                    strip,
                                    (depth - 1) as nat,
                                );
                            },
                            None => {},
                        }
                    }
                } else {
                    lemma_value_well_formed(
                        data,
                        pos + header.size,
                        header.data_type,
                        strip,
                        depth,
                    );
                    match value_at(data, pos + header.size, header.data_type, strip, depth) {
                        Err(_) => {},
                        Ok((value, used)) => {
                            lemma_put_well_formed(acc, header.name, value);
                            lemma_records_well_formed(
                                data,
                                pos + header.size + used,
                                (count - 1) as nat,
                                put(acc, header.name, value),
                                strip,
                                depth,
                            );
                        },
                    }
                }
            },
        }
    }
}

/// Whether a fault is one that decoding a stream can end in: a
/// malformed or truncated stream, an unknown type code, an unsound zlib
/// stream, or invalid UTF-16.
pub open spec fn is_decoding_fault(f: Fault) -> bool {
    f is ClxParse || f is UnsupportedClxType || f is Decompression || f is Utf16Decode
}

/// A payload that does not decode ends in a decoding fault.
pub proof fn lemma_value_faults(data: Seq<u8>, pos: int, data_type: u8, strip: bool, depth: nat)
    ensures
        value_at(data, pos, data_type, strip, depth) matches Err(f) ==> is_decoding_fault(f),
    decreases depth, data.len(), remaining(data, pos), 1nat,
{
    reveal_with_fuel(value_at, 1);
    reveal_with_fuel(records, 1);
    if data_type == CLX_LEVEL {
        if in_bounds(data, pos, 12) {
            let count = le_u32_at(data, pos) as nat;
            lemma_records_faults(data, pos + 12, count, Seq::empty(), strip, depth);
        }
    }
}

/// Records that do not decode end in a decoding fault.
pub proof fn lemma_records_faults(
    data: Seq<u8>,
    pos: int,
    count: nat,
    acc: Seq<(Seq<char>, ClxTree)>,
    strip: bool,
    depth: nat,
)
    ensures
        records(data, pos, count, acc, strip, depth) matches Err(f) ==> is_decoding_fault(f),
    decreases depth, data.len(), remaining(data, pos), 0nat,
{
    reveal_with_fuel(value_at, 1);
    reveal_with_fuel(records, 1);
    if count > 0 {
        match header_at(data, pos, strip) {
            Err(_) => {},
            Ok(header) => {
                if header.data_type == CLX_END {
                } else if header.data_type == CLX_COMPRESS {
                    if depth > 0 {
                        let start = if pos + 12 <= data.len() {
                            pos + 12
                        } else {
                            data.len() as int
                        };
                        match zlib_inflated(data.subrange(start, data.len() as int)) {
                            Some(inner) => {
                                lemma_records_faults(
                                    inner,
                                    0,
                                    1,
                                    Seq::empty(),
                                    strip,
                                    (depth - 1) as nat,
                                );
                            },
                            None => {},
                        }
                    }
                } else {
                    lemma_value_faults(data, pos + header.size, header.data_type, strip, depth);
                    match value_at(data, pos + header.size, header.data_type, strip, depth) {
                        Err(_) => {},
                        Ok((value, used)) => {
                            lemma_records_faults(
                                data,
                                pos + header.size + used,
                                (count - 1) as nat,
                                put(acc, header.name, value),
                                strip,
                                depth,
                            );
                        },
                    }
                }
            },
        }
    }
}

/// A stream that does not decode ends in a decoding fault.
pub proof fn lemma_decoded_faults(data: Seq<u8>, strip: bool, depth: nat)
    ensures
        decoded(data, strip, depth) matches Err(f) ==> is_decoding_fault(f),
{
    lemma_records_faults(data, 0, 1, Seq::empty(), strip, depth);
}

/// Every tree that a stream decodes to is well formed.
pub proof fn lemma_decoded_well_formed(data: Seq<u8>, strip: bool, depth: nat)
    ensures
        decoded(data, strip, depth) matches Ok(tree) ==> tree.well_formed(),
{
    lemma_records_well_formed(data, 0, 1, Seq::empty(), strip, depth);
}

/// What went wrong when a stream ends inside a record.
fn truncated() -> (e: Nd2Error)
    ensures
        e@ == Fault::ClxParse,
{
    Nd2Error::ClxParse(String::from_str("Unexpected end of CLX data"))
}

/// Checks whether bytes plausibly start a CLX-Lite record.
pub fn looks_like_clx_lite(data: &[u8]) -> (plausible: bool)
    ensures
        plausible == looks_like_clx(data@),
{
    if data.len() < 2 {
        return false;
    }
    let data_type = data[0];
    let name_length = data[1];
    if data_type == CLX_COMPRESS {
        return true;
    }
    if data_type < 1 || data_type > 11 {
        return false;
    }
    if name_length <= 1 {
        return false;
    }
    let name_bytes: usize = name_length as usize * 2;
    let name_end: usize = 2 + name_bytes;
    if data.len() < name_end {
        return false;
    }
    data[name_end - 2] == 0 && data[name_end - 1] == 0
}

/// Position of the first entry named `name`.
fn find_index(entries: &Vec<(String, ClxValue)>, name: &String) -> (found: Option<usize>)
    ensures
        match found {
            Some(i) => lookup_index(entries_view(entries@), name@) == Some(i as int) && i
                < entries@.len(),
            None => lookup_index(entries_view(entries@), name@) is None,
        },
{
    let mut i: usize = 0;
    proof {
        lemma_lookup_index(entries_view(entries@), name@);
    }
    while i < entries.len()
        invariant
            i <= entries@.len(),
            forall|k: int| 0 <= k < i ==> (#[trigger] entries_view(entries@)[k]).0 != name@,
        decreases entries@.len() - i,
    {
        if entries[i].0 == *name {
            proof {
                lemma_lookup_index(entries_view(entries@), name@);
                assert(entries_view(entries@)[i as int].0 == name@);
            }
            return Some(i);
        }
        assert(entries_view(entries@)[i as int].0 != name@);
        i += 1;
    }
    proof {
        lemma_lookup_index(entries_view(entries@), name@);
        if lookup_index(entries_view(entries@), name@) is Some {
            let j = lookup_index(entries_view(entries@), name@).unwrap();
            assert(entries_view(entries@)[j].0 == name@);
        }
    }
    None
}

/// Puts a record into the object under construction.
pub fn put_entry(output: &mut Vec<(String, ClxValue)>, name: String, value: ClxValue)
    ensures
        entries_view(final(output)@) == put(entries_view(old(output)@), name@, value@),
{
    let ghost before = entries_view(output@);
    match find_index(output, &name) {
        None => {
            output.push((name, value));
            assert(entries_view(output@) =~= before.push((name@, value@)));
        },
        Some(i) => {
            assert(before[i as int] == (output@[i as int].0@, output@[i as int].1@));
            let (_, existing) = output.remove(i);
            if name.as_str().unicode_len() == 0 {
                let merged = match existing {
                    ClxValue::Array(mut items) => {
                        let ghost old_items = items_view(items@);
                        items.push(value);
                        assert(items_view(items@) =~= old_items.push(value@));
                        ClxValue::Array(items)
                    },
                    other => {
                        let mut items: Vec<ClxValue> = Vec::new();
                        items.push(other);
                        items.push(value);
                        assert(items_view(items@) =~= seq![other@, value@]);
                        ClxValue::Array(items)
                    },
                };
                output.insert(i, (name, merged));
                assert(entries_view(output@) =~= before.update(i as int, (name@, merged@)));
            } else {
                output.insert(i, (name, value));
                assert(entries_view(output@) =~= before.update(i as int, (name@, value@)));
            }
        },
    }
}

/// What a level resolves to.
fn promote_level(value: ClxValue) -> (promoted: ClxValue)
    ensures
        promoted@ == promote(value@),
{
    match value {
        ClxValue::Object(mut entries) => {
            let ghost before = entries_view(entries@);
            assert(value@ == ClxTree::Object(before));
            if entries.len() != 1 {
                return ClxValue::Object(entries);
            }
            assert(before[0] == (entries@[0].0@, entries@[0].1@));
            if entries[0].0.as_str().unicode_len() != 0 {
                return ClxValue::Object(entries);
            }
            let is_array = match &entries[0].1 {
                ClxValue::Array(_) => true,
                _ => false,
            };
            if !is_array {
                assert(!(before[0].1 is Array));
                return ClxValue::Object(entries);
            }
            let (_, only) = entries.remove(0);
            assert(only@ == before[0].1);
            only
        },
        other => other,
    }
}

/// One record of a stream, read.
pub enum Record {
    /// A header of type `0xFF`, which ends the block; the position after
    /// it.
    End(usize),
    /// A compress record, which gives the whole result.
    Whole(ClxValue),
    /// A named value, and the position after it.
    Entry(String, ClxValue, usize),
}

/// What a record of a stream says.
pub enum RecordModel {
    End { size: nat },
    Whole { tree: ClxTree },
    Entry { name: Seq<char>, value: ClxTree, size: nat },
}

/// The bytes of a compress record at `pos` that hold its zlib stream:
/// those after its header and ten more bytes.
pub open spec fn compressed_part(data: Seq<u8>, pos: int) -> Seq<u8> {
    if pos + 12 <= data.len() {
        data.subrange(pos + 12, data.len() as int)
    } else {
        Seq::empty()
    }
}

/// The record at `pos`.
pub open spec fn record_at(data: Seq<u8>, pos: int, strip: bool, depth: nat) -> Result<
    RecordModel,
    Fault,
> {
    match header_at(data, pos, strip) {
        Err(f) => Err(f),
        Ok(header) => if header.data_type == CLX_END {
            Ok(RecordModel::End { size: header.size })
        } else if header.data_type == CLX_COMPRESS {
            if depth == 0 {
                Err(Fault::ClxParse)
            } else {
                match zlib_inflated(compressed_part(data, pos)) {
                    Some(inner) => match decoded(inner, strip, (depth - 1) as nat) {
                        Ok(tree) => Ok(RecordModel::Whole { tree }),
                        Err(f) => Err(f),
                    },
                    None => Err(Fault::Decompression),
                }
            }
        } else {
            match value_at(data, pos + header.size, header.data_type, strip, depth) {
                Err(f) => Err(f),
                Ok((value, used)) => Ok(
                    RecordModel::Entry { name: header.name, value, size: header.size + used },
                ),
            }
        },
    }
}

/// `records` takes one record and goes on with the rest.
pub proof fn lemma_records_step(
    data: Seq<u8>,
    pos: int,
    count: nat,
    acc: Seq<(Seq<char>, ClxTree)>,
    strip: bool,
    depth: nat,
)
    requires
        count > 0,
    ensures
        records(data, pos, count, acc, strip, depth) == (match record_at(data, pos, strip, depth) {
            Err(f) => Err::<(ClxTree, nat), Fault>(f),
            Ok(RecordModel::End { size }) => Ok((ClxTree::Object(acc), size)),
            Ok(RecordModel::Whole { tree }) => Ok((tree, remaining(data, pos))),
            Ok(RecordModel::Entry { name, value, size }) => advanced(
                records(data, pos + size, (count - 1) as nat, put(acc, name, value), strip, depth),
                size,
            ),
        }),
{
    reveal_with_fuel(records, 1);
    reveal_with_fuel(value_at, 1);
    match header_at(data, pos, strip) {
        Err(f) => {},
        Ok(header) => {
            if header.data_type == CLX_END {
            } else if header.data_type == CLX_COMPRESS {
                if depth > 0 {
                    assert(compressed_part(data, pos) =~= data.subrange(
                        if pos + 12 <= data.len() {
                            pos + 12
                        } else {
                            data.len() as int
                        },
                        data.len() as int,
                    ));
                }
            } else {
            }
        },
    }
}

/// Where no record is left to take, `records` gives the object as it
/// stands.
pub proof fn lemma_records_done(
    data: Seq<u8>,
    pos: int,
    acc: Seq<(Seq<char>, ClxTree)>,
    strip: bool,
    depth: nat,
)
    ensures
        records(data, pos, 0, acc, strip, depth) == Ok::<(ClxTree, nat), Fault>(
            (ClxTree::Object(acc), 0),
        ),
{
    reveal_with_fuel(records, 1);
}

/// Whether a record that was read at `pos` is what the stream holds
/// there.
pub open spec fn record_gives(
    outcome: Result<Record, Nd2Error>,
    pos: int,
    expected: Result<RecordModel, Fault>,
) -> bool {
    match outcome {
        Ok(Record::End(next)) => next > pos && expected == Ok::<RecordModel, Fault>(
            RecordModel::End { size: (next - pos) as nat },
        ),
        Ok(Record::Whole(value)) => expected == Ok::<RecordModel, Fault>(
            RecordModel::Whole { tree: value@ },
        ),
        Ok(Record::Entry(name, value, next)) => next > pos && expected == Ok::<RecordModel, Fault>(
            RecordModel::Entry { name: name@, value: value@, size: (next - pos) as nat },
        ),
        Err(e) => expected == Err::<RecordModel, Fault>(e@),
    }
}

/// Decoder of CLX-Lite streams.
pub struct ClxLiteParser {
    strip_prefix: bool,
}

impl ClxLiteParser {
    /// Whether the decoder drops the lower-case prefix of names.
    pub closed spec fn strips_prefix(&self) -> bool {
        self.strip_prefix
    }

    /// A decoder that drops the lower-case prefix of every name where
    /// `strip_prefix` is set, and keeps names as they are where it is
    /// not.
    pub fn new(strip_prefix: bool) -> (parser: ClxLiteParser)
        ensures
            parser.strips_prefix() == strip_prefix,
    {
        ClxLiteParser { strip_prefix }
    }

    /// Decodes a whole stream into the tree of its first record.
    ///
    /// Fails with a parse error where the stream ends inside a record,
    /// uses a reserved type code or nests compress records too deep,
    /// with an unsupported-type error for an unknown type code, with a
    /// decoding error for invalid UTF-16, and with a decompression
    /// error where a compress record holds no sound zlib stream.
    pub fn parse(&self, data: &[u8]) -> (outcome: Result<ClxValue, Nd2Error>)
        ensures
            gives(outcome, decoded(data@, self.strips_prefix(), MAX_COMPRESS_DEPTH as nat)),
            outcome matches Ok(value) ==> value@.well_formed(),
            outcome matches Err(e) ==> is_decoding_fault(e@),
    {
        proof {
            lemma_decoded_well_formed(data@, self.strips_prefix(), MAX_COMPRESS_DEPTH as nat);
            lemma_decoded_faults(data@, self.strips_prefix(), MAX_COMPRESS_DEPTH as nat);
        }
        self.parse_within(data, MAX_COMPRESS_DEPTH)
    }

    /// Decodes a whole stream in which compress records nest at most
    /// `depth` deep.
    fn parse_within(&self, data: &[u8], depth: u32) -> (outcome: Result<ClxValue, Nd2Error>)
        ensures
            gives(outcome, decoded(data@, self.strips_prefix(), depth as nat)),
        decreases depth, data@.len(), data@.len() + 1, 0nat,
    {
        match self.parse_with_count(data, 0, 1, depth) {
            Ok((value, _)) => Ok(value),
            Err(e) => Err(e),
        }
    }

    /// Decodes up to `count` records from `start` on into one object.
    fn parse_with_count(&self, data: &[u8], start: usize, count: usize, depth: u32) -> (outcome:
        Result<(ClxValue, usize), Nd2Error>)
        requires
            start <= data@.len(),
        ensures
            step_gives(
                outcome,
                start as int,
                records(
                    data@,
                    start as int,
                    count as nat,
                    Seq::empty(),
                    self.strips_prefix(),
                    depth as nat,
                ),
            ),
            outcome matches Ok((_, next)) ==> next <= data@.len(),
        decreases depth, data@.len(), remaining(data@, start as int), 3nat,
    {
        let ghost strip = self.strips_prefix();
        let ghost goal = records(
            data@,
            start as int,
            count as nat,
            Seq::empty(),
            strip,
            depth as nat,
        );
        let total: usize = data.len();
        let mut output: Vec<(String, ClxValue)> = Vec::new();
        let mut pos: usize = start;
        let mut i: usize = 0;
        assert(entries_view(output@) =~= Seq::empty());
        while i < count
            invariant
                start <= pos <= total,
                total == data@.len(),
                strip == self.strips_prefix(),
                i <= count,
                goal == records(
                    data@,
                    start as int,
                    count as nat,
                    Seq::empty(),
                    strip,
                    depth as nat,
                ),
                goal == advanced(
                    records(
                        data@,
                        pos as int,
                        (count - i) as nat,
                        entries_view(output@),
                        strip,
                        depth as nat,
                    ),
                    (pos - start) as nat,
                ),
            decreases count - i,
        {
            proof {
                lemma_records_step(
                    data@,
                    pos as int,
                    (count - i) as nat,
                    entries_view(output@),
                    strip,
                    depth as nat,
                );
            }
            match self.read_record(data, pos, depth) {
                Err(e) => {
                    return Err(e);
                },
                Ok(Record::End(next)) => {
                    return Ok((ClxValue::Object(output), next));
                },
                Ok(Record::Whole(value)) => {
                    return Ok((value, total));
                },
                Ok(Record::Entry(name, value, next)) => {
                    put_entry(&mut output, name, value);
                    pos = next;
                    i += 1;
                },
            }
        }
        proof {
            lemma_records_done(data@, pos as int, entries_view(output@), strip, depth as nat);
        }
        Ok((ClxValue::Object(output), pos))
    }

    /// Reads the record at `pos`.
    fn read_record(&self, data: &[u8], pos: usize, depth: u32) -> (outcome: Result<
        Record,
        Nd2Error,
    >)
        requires
            pos <= data@.len(),
        ensures
            record_gives(
                outcome,
                pos as int,
                record_at(data@, pos as int, self.strips_prefix(), depth as nat),
            ),
            outcome matches Ok(Record::End(next)) ==> next <= data@.len(),
            outcome matches Ok(Record::Entry(_, _, next)) ==> next <= data@.len(),
        decreases depth, data@.len(), remaining(data@, pos as int), 2nat,
    {
        let total: usize = data.len();
        let (name, data_type, after) = match self.read_chunk_header(data, pos) {
            Ok(header) => header,
            Err(e) => {
                return Err(e);
            },
        };
        if data_type == CLX_END {
            return Ok(Record::End(after));
        }
        if data_type == CLX_COMPRESS {
            if depth == 0 {
                return Err(
                    Nd2Error::ClxParse(String::from_str("Compressed CLX data nested too deep")),
                );
            }
            let from: usize = if total - pos >= 12 {
                pos + 12
            } else {
                total
            };
            assert(data@.subrange(from as int, total as int) =~= compressed_part(data@, pos as int));
            let inflated = inflate(slice_subrange(data, from, total));
            return match inflated {
                Ok(inner) => match self.parse_within(inner.as_slice(), depth - 1) {
                    Ok(value) => Ok(Record::Whole(value)),
                    Err(e) => Err(e),
                },
                Err(words) => Err(Nd2Error::Decompression(words)),
            };
        }
        match self.read_value(data, after, data_type, depth) {
            Ok((value, next)) => Ok(Record::Entry(name, value, next)),
            Err(e) => Err(e),
        }
    }

    /// Reads the header of the record at `pos`: its name, its type code
    /// and the position after the header.
    pub fn read_chunk_header(&self, data: &[u8], pos: usize) -> (outcome: Result<
        (String, u8, usize),
        Nd2Error,
    >)
        ensures
            match outcome {
                Ok((name, data_type, next)) => {
                    &&& pos + 2 <= next <= data@.len()
                    &&& header_at(data@, pos as int, self.strips_prefix()) == Ok::<
                        HeaderModel,
                        Fault,
                    >(HeaderModel { name: name@, data_type, size: (next - pos) as nat })
                },
                Err(e) => header_at(data@, pos as int, self.strips_prefix()) == Err::<
                    HeaderModel,
                    Fault,
                >(e@),
            },
    {
        let total: usize = data.len();
        if pos > total || total - pos < 2 {
            return Err(truncated());
        }
        let data_type: u8 = data[pos];
        let name_length: usize = data[pos + 1] as usize;
        if data_type == CLX_DEPRECATED || data_type == CLX_UNKNOWN {
            return Err(
                Nd2Error::ClxParse(String::from_str("Unknown data type in metadata header")),
            );
        }
        if data_type == CLX_COMPRESS {
            let name = String::new();
            assert(name@ =~= Seq::empty());
            return Ok((name, data_type, pos + 2));
        }
        if total - (pos + 2) < 2 * name_length {
            return Err(truncated());
        }
        proof {
            lemma_units_window(data@, pos + 2, name_length as nat);
        }
        let name_bytes = slice_subrange(data, pos + 2, pos + 2 + 2 * name_length);
        let raw = match decode_utf16_le(name_bytes) {
            Ok(raw) => raw,
            Err(e) => {
                return Err(e);
            },
        };
        let trimmed = trim_trailing_nuls(raw.as_str());
        let name = if self.strip_prefix {
            strip_lowercase_prefix(trimmed.as_str())
        } else {
            trimmed
        };
        Ok((name, data_type, pos + 2 + 2 * name_length))
    }

    /// Reads the payload of a record of type `data_type` at `pos`.
    fn read_value(&self, data: &[u8], pos: usize, data_type: u8, depth: u32) -> (outcome: Result<
        (ClxValue, usize),
        Nd2Error,
    >)
        requires
            pos <= data@.len(),
        ensures
            step_gives(
                outcome,
                pos as int,
                value_at(data@, pos as int, data_type, self.strips_prefix(), depth as nat),
            ),
            outcome matches Ok((_, next)) ==> next <= data@.len(),
        decreases depth, data@.len(), remaining(data@, pos as int), 2nat,
    {
        reveal_with_fuel(value_at, 1);
        reveal_with_fuel(records, 1);
        let total: usize = data.len();
        if data_type == CLX_BOOL {
            if total - pos < 1 {
                return Err(truncated());
            }
            Ok((ClxValue::Bool(data[pos] != 0), pos + 1))
        } else if data_type == CLX_INT32 {
            match i32_at(data, pos) {
                Some(v) => Ok((ClxValue::Int(v as i64), pos + 4)),
                None => Err(truncated()),
            }
        } else if data_type == CLX_UINT32 {
            match u32_at(data, pos) {
                Some(v) => Ok((ClxValue::UInt(v as u64), pos + 4)),
                None => Err(truncated()),
            }
        } else if data_type == CLX_INT64 {
            match i64_at(data, pos) {
                Some(v) => Ok((ClxValue::Int(v), pos + 8)),
                None => Err(truncated()),
            }
        } else if data_type == CLX_UINT64 || data_type == CLX_VOID_POINTER {
            match u64_at(data, pos) {
                Some(v) => Ok((ClxValue::UInt(v), pos + 8)),
                None => Err(truncated()),
            }
        } else if data_type == CLX_DOUBLE {
            match u64_at(data, pos) {
                Some(v) => Ok((ClxValue::Float(v), pos + 8)),
                None => Err(truncated()),
            }
        } else if data_type == CLX_STRING {
            self.read_utf16_string(data, pos)
        } else if data_type == CLX_BYTE_ARRAY {
            self.read_byte_array(data, pos, depth)
        } else if data_type == CLX_LEVEL {
            self.read_level(data, pos, depth)
        } else {
            Err(Nd2Error::UnsupportedClxType(data_type))
        }
    }

    /// Reads a string: code units up to and including the first zero
    /// unit.
    fn read_utf16_string(&self, data: &[u8], pos: usize) -> (outcome: Result<
        (ClxValue, usize),
        Nd2Error,
    >)
        requires
            pos <= data@.len(),
        ensures
            step_gives(
                outcome,
                pos as int,
                value_at(data@, pos as int, CLX_STRING, self.strips_prefix(), 0),
            ),
            outcome matches Ok((_, next)) ==> next <= data@.len(),
    {
        reveal_with_fuel(value_at, 1);
        reveal_with_fuel(records, 1);
        let total: usize = data.len();
        let mut end: usize = pos;
        let ghost mut k: nat = 0;
        loop
            invariant
                pos <= end <= total,
                total == data@.len(),
                end == pos + 2 * k,
                terminator_index(data@, pos as int, 0) == terminator_index(data@, pos as int, k),
            ensures
                end + 2 <= total,
                terminator_index(data@, pos as int, 0) == Some(k),
            decreases total - end,
        {
            if total - end < 2 {
                proof {
                    reveal_with_fuel(value_at, 1);
                }
                return Err(truncated());
            }
            if data[end] == 0 && data[end + 1] == 0 {
                break ;
            }
            end += 2;
            proof {
                k = k + 1;
            }
        }
        proof {
            lemma_units_window(data@, pos as int, k + 1);
        }
        let raw = match decode_utf16_le(slice_subrange(data, pos, end + 2)) {
            Ok(raw) => raw,
            Err(e) => {
                return Err(e);
            },
        };
        Ok((ClxValue::String(trim_trailing_nuls(raw.as_str())), end + 2))
    }

    /// Reads a byte array, and decodes it where it holds a stream of its
    /// own.
    fn read_byte_array(&self, data: &[u8], pos: usize, depth: u32) -> (outcome: Result<
        (ClxValue, usize),
        Nd2Error,
    >)
        requires
            pos <= data@.len(),
        ensures
            step_gives(
                outcome,
                pos as int,
                value_at(data@, pos as int, CLX_BYTE_ARRAY, self.strips_prefix(), depth as nat),
            ),
            outcome matches Ok((_, next)) ==> next <= data@.len(),
        decreases depth, data@.len(), remaining(data@, pos as int), 1nat,
    {
        reveal_with_fuel(value_at, 1);
        reveal_with_fuel(records, 1);
        let total: usize = data.len();
        let size: u64 = match u64_at(data, pos) {
            Some(size) => size,
            None => {
                return Err(truncated());
            },
        };
        if size > (total - (pos + 8)) as u64 {
            return Err(truncated());
        }
        let bytes = copy_range(data, pos + 8, size as usize);
        let next: usize = pos + 8 + size as usize;
        if looks_like_clx_lite(bytes.as_slice()) {
            match self.parse_within(bytes.as_slice(), depth) {
                Ok(nested) => {
                    return Ok((nested, next));
                },
                Err(_) => {},
            }
        }
        Ok((ClxValue::ByteArray(bytes), next))
    }

    /// Reads a level: its records, then the offset table that follows
    /// them.
    fn read_level(&self, data: &[u8], pos: usize, depth: u32) -> (outcome: Result<
        (ClxValue, usize),
        Nd2Error,
    >)
        requires
            pos <= data@.len(),
        ensures
            step_gives(
                outcome,
                pos as int,
                value_at(data@, pos as int, CLX_LEVEL, self.strips_prefix(), depth as nat),
            ),
            outcome matches Ok((_, next)) ==> next <= data@.len(),
        decreases depth, data@.len(), remaining(data@, pos as int), 1nat,
    {
        reveal_with_fuel(value_at, 1);
        reveal_with_fuel(records, 1);
        let total: usize = data.len();
        if total - pos < 12 {
            return Err(truncated());
        }
        let item_count: u32 = match u32_at(data, pos) {
            Some(n) => n,
            None => {
                return Err(truncated());
            },
        };
        let (value, inner_end) = match self.parse_with_count(
            data,
            pos + 12,
            item_count as usize,
            depth,
        ) {
            Ok(read) => read,
            Err(e) => {
                return Err(e);
            },
        };
        let table: u64 = 8 * (item_count as u64);
        let left: usize = total - inner_end;
        let next: usize = if table < left as u64 {
            inner_end + table as usize
        } else {
            total
        };
        Ok((promote_level(value), next))
    }
}

} // verus!
