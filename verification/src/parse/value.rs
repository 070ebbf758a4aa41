//! The tree of values that a CLX-Lite stream spells, and how to read it.

use crate::types::number::Number;
use vstd::prelude::*;

verus! {

/// A decoded CLX-Lite value.
///
/// A `Float` holds the IEEE 754 binary64 bit pattern of the number. An
/// `Object` holds its entries in the order in which their names first
/// appeared in the stream; the decoder never produces two entries of one
/// name. The entries stand in a list because the verifier models the
/// hash map of std for integer keys only, not for strings; a name is
/// looked up as the first entry that bears it.
#[derive(Debug, PartialEq)]
pub enum ClxValue {
    Bool(bool),
    Int(i64),
    UInt(u64),
    Float(u64),
    String(String),
    ByteArray(Vec<u8>),
    Object(Vec<(String, ClxValue)>),
    Array(Vec<ClxValue>),
}

/// The mathematical value that a `ClxValue` stands for.
pub enum ClxTree {
    Bool(bool),
    Int(i64),
    UInt(u64),
    Float(u64),
    String(Seq<char>),
    ByteArray(Seq<u8>),
    Object(Seq<(Seq<char>, ClxTree)>),
    Array(Seq<ClxTree>),
}

/// The entries of an object, as names and trees.
pub open spec fn entries_view(entries: Seq<(String, ClxValue)>) -> Seq<(Seq<char>, ClxTree)>
    decreases entries,
{
    Seq::new(
        entries.len(),
        |i: int|
            if 0 <= i < entries.len() {
                (entries[i].0@, entries[i].1@)
            } else {
                (Seq::empty(), ClxTree::Bool(false))
            },
    )
}

/// The items of an array, as trees.
pub open spec fn items_view(items: Seq<ClxValue>) -> Seq<ClxTree>
    decreases items,
{
    Seq::new(
        items.len(),
        |i: int|
            if 0 <= i < items.len() {
                items[i]@
            } else {
                ClxTree::Bool(false)
            },
    )
}

impl View for ClxValue {
    type V = ClxTree;

    open spec fn view(&self) -> ClxTree
        decreases self,
    {
        match self {
            ClxValue::Bool(b) => ClxTree::Bool(*b),
            ClxValue::Int(i) => ClxTree::Int(*i),
            ClxValue::UInt(u) => ClxTree::UInt(*u),
            ClxValue::Float(bits) => ClxTree::Float(*bits),
            ClxValue::String(s) => ClxTree::String(s@),
            ClxValue::ByteArray(bytes) => ClxTree::ByteArray(bytes@),
            ClxValue::Object(entries) => ClxTree::Object(entries_view(entries@)),
            ClxValue::Array(items) => ClxTree::Array(items_view(items@)),
        }
    }
}

impl Clone for ClxValue {
    /// A deep copy: the same tree in fresh storage.
    #[verifier::loop_isolation(false)]
    fn clone(&self) -> (copy: ClxValue)
        ensures
            copy@ == self@,
        decreases self,
    {
        match self {
            ClxValue::Bool(b) => ClxValue::Bool(*b),
            ClxValue::Int(i) => ClxValue::Int(*i),
            ClxValue::UInt(u) => ClxValue::UInt(*u),
            ClxValue::Float(bits) => ClxValue::Float(*bits),
            ClxValue::String(s) => ClxValue::String(s.clone()),
            ClxValue::ByteArray(bytes) => ClxValue::ByteArray(bytes.clone()),
            ClxValue::Object(entries) => {
                let mut out: Vec<(String, ClxValue)> = Vec::new();
                let mut i: usize = 0;
                while i < entries.len()
                    invariant
                        i <= entries@.len(),
                        out@.len() == i,
                        forall|k: int| 0 <= k < i ==> (#[trigger] out@[k]).0@ == entries@[k].0@ && out@[k].1@ == entries@[k].1@,
                    decreases entries@.len() - i,
                {
                    let name = entries[i].0.clone();
                    let value = entries[i].1.clone();
                    out.push((name, value));
                    i += 1;
                }
                assert(entries_view(out@) =~= entries_view(entries@));
                ClxValue::Object(out)
            },
            ClxValue::Array(items) => {
                let mut out: Vec<ClxValue> = Vec::new();
                let mut i: usize = 0;
                while i < items.len()
                    invariant
                        i <= items@.len(),
                        out@.len() == i,
                        forall|k: int| 0 <= k < i ==> (#[trigger] out@[k])@ == items@[k]@,
                    decreases items@.len() - i,
                {
                    let value = items[i].clone();
                    out.push(value);
                    i += 1;
                }
                assert(items_view(out@) =~= items_view(items@));
                ClxValue::Array(out)
            },
        }
    }
}

/// The value of the first entry named `key`, if there is one.
pub open spec fn lookup(entries: Seq<(Seq<char>, ClxTree)>, key: Seq<char>) -> Option<ClxTree>
    decreases entries.len(),
{
    if entries.len() == 0 {
        None
    } else if entries[0].0 == key {
        Some(entries[0].1)
    } else {
        lookup(entries.skip(1), key)
    }
}

/// Position of the first entry named `key`, if there is one.
pub open spec fn lookup_index(entries: Seq<(Seq<char>, ClxTree)>, key: Seq<char>) -> Option<int>
    decreases entries.len(),
{
    if entries.len() == 0 {
        None
    } else if entries[0].0 == key {
        Some(0)
    } else {
        match lookup_index(entries.skip(1), key) {
            Some(i) => Some(i + 1),
            None => None,
        }
    }
}

/// `lookup` returns the value at `lookup_index`, which is the first
/// position that carries the name.
pub proof fn lemma_lookup_index(entries: Seq<(Seq<char>, ClxTree)>, key: Seq<char>)
    ensures
        match lookup_index(entries, key) {
            Some(i) => {
                &&& 0 <= i < entries.len()
                &&& entries[i].0 == key
                &&& lookup(entries, key) == Some(entries[i].1)
                &&& forall|k: int| 0 <= k < i ==> (#[trigger] entries[k]).0 != key
            },
            None => {
                &&& lookup(entries, key) is None
                &&& forall|k: int| 0 <= k < entries.len() ==> (#[trigger] entries[k]).0 != key
            },
        },
    decreases entries.len(),
{
    if entries.len() > 0 && entries[0].0 != key {
        let rest = entries.skip(1);
        lemma_lookup_index(rest, key);
        match lookup_index(rest, key) {
            Some(i) => {
                assert forall|k: int| 0 <= k < i + 1 implies (#[trigger] entries[k]).0 != key by {
                    if k > 0 {
                        assert(rest[k - 1] == entries[k]);
                    }
                }
            },
            None => {
                assert forall|k: int| 0 <= k < entries.len() implies (#[trigger] entries[k]).0
                    != key by {
                    if k > 0 {
                        assert(rest[k - 1] == entries[k]);
                    }
                }
            },
        }
    }
}

/// Whether no two entries share a name.
pub open spec fn distinct_names(entries: Seq<(Seq<char>, ClxTree)>) -> bool {
    forall|i: int, j: int|
        0 <= i < j < entries.len() ==> (#[trigger] entries[i]).0 != (#[trigger] entries[j]).0
}

impl ClxTree {
    /// Whether every object in the tree has distinct names.
    pub open spec fn well_formed(self) -> bool
        decreases self,
    {
        match self {
            ClxTree::Object(entries) => {
                &&& distinct_names(entries)
                &&& forall|i: int|
                    0 <= i < entries.len() ==> (#[trigger] entries[i]).1.well_formed()
            },
            ClxTree::Array(items) => forall|i: int|
                0 <= i < items.len() ==> (#[trigger] items[i]).well_formed(),
            _ => true,
        }
    }

    /// The unsigned 32-bit reading of a value: an unsigned or a
    /// non-negative signed integer, reduced to its low 32 bits.
    pub open spec fn as_u32(self) -> Option<u32> {
        match self {
            ClxTree::UInt(u) => Some((u % 0x1_0000_0000) as u32),
            ClxTree::Int(i) => if i >= 0 {
                Some((i % 0x1_0000_0000) as u32)
            } else {
                None
            },
            _ => None,
        }
    }

    /// The boolean reading of a value: a boolean itself, or an integer,
    /// which is true unless it is zero.
    pub open spec fn as_flag(self) -> Option<bool> {
        match self {
            ClxTree::Bool(b) => Some(b),
            ClxTree::UInt(u) => Some(u != 0),
            ClxTree::Int(i) => Some(i != 0),
            _ => None,
        }
    }

    /// The real-number reading of a value: a float or an integer, kept
    /// as stored.
    pub open spec fn as_number(self) -> Option<Number> {
        match self {
            ClxTree::Float(bits) => Some(Number::Float(bits)),
            ClxTree::Int(i) => Some(Number::Int(i)),
            ClxTree::UInt(u) => Some(Number::UInt(u)),
            _ => None,
        }
    }

    /// The text of a string value.
    pub open spec fn as_text(self) -> Option<Seq<char>> {
        match self {
            ClxTree::String(s) => Some(s),
            _ => None,
        }
    }
}

impl ClxValue {
    /// The entries, if the value is an object.
    pub fn as_object(&self) -> (entries: Option<&Vec<(String, ClxValue)>>)
        ensures
            match entries {
                Some(es) => *self == ClxValue::Object(*es),
                None => !(self is Object),
            },
    {
        if let ClxValue::Object(map) = self {
            Some(map)
        } else {
            None
        }
    }

    /// The text, if the value is a string.
    pub fn as_str(&self) -> (text: Option<&str>)
        ensures
            match text {
                Some(s) => self@ == ClxTree::String(s@),
                None => !(self is String),
            },
    {
        if let ClxValue::String(s) = self {
            Some(s.as_str())
        } else {
            None
        }
    }

    /// The number, if the value is a signed integer.
    pub fn as_i64(&self) -> (number: Option<i64>)
        ensures
            number == (match *self {
                ClxValue::Int(i) => Some(i),
                _ => None,
            }),
    {
        if let ClxValue::Int(i) = self {
            Some(*i)
        } else {
            None
        }
    }

    /// The number, if the value is an unsigned integer.
    pub fn as_u64(&self) -> (number: Option<u64>)
        ensures
            number == (match *self {
                ClxValue::UInt(u) => Some(u),
                _ => None,
            }),
    {
        if let ClxValue::UInt(u) = self {
            Some(*u)
        } else {
            None
        }
    }

    /// The IEEE 754 binary64 bit pattern, if the value is a float.
    pub fn as_f64(&self) -> (bits: Option<u64>)
        ensures
            bits == (match *self {
                ClxValue::Float(b) => Some(b),
                _ => None,
            }),
    {
        if let ClxValue::Float(f) = self {
            Some(*f)
        } else {
            None
        }
    }

    /// The truth value, if the value is a boolean.
    pub fn as_bool(&self) -> (flag: Option<bool>)
        ensures
            flag == (match *self {
                ClxValue::Bool(b) => Some(b),
                _ => None,
            }),
    {
        if let ClxValue::Bool(b) = self {
            Some(*b)
        } else {
            None
        }
    }

    /// Reads the value as an unsigned 32-bit number, from either integer
    /// type.
    pub fn to_u32(&self) -> (number: Option<u32>)
        ensures
            number == self@.as_u32(),
    {
        match self {
            ClxValue::UInt(u) => Some((*u % 0x1_0000_0000) as u32),
            ClxValue::Int(i) => if *i >= 0 {
                Some((*i % 0x1_0000_0000) as u32)
            } else {
                None
            },
            _ => None,
        }
    }

    /// Reads the value as a real number, from a float or an integer.
    pub fn to_number(&self) -> (number: Option<Number>)
        ensures
            number == self@.as_number(),
    {
        match self {
            ClxValue::Float(bits) => Some(Number::Float(*bits)),
            ClxValue::Int(i) => Some(Number::Int(*i)),
            ClxValue::UInt(u) => Some(Number::UInt(*u)),
            _ => None,
        }
    }

    /// Reads the value as a truth value, from a boolean or an integer.
    pub fn to_flag(&self) -> (flag: Option<bool>)
        ensures
            flag == self@.as_flag(),
    {
        match self {
            ClxValue::Bool(b) => Some(*b),
            ClxValue::UInt(u) => Some(*u != 0),
            ClxValue::Int(i) => Some(*i != 0),
            _ => None,
        }
    }
}

/// Finds the first entry named `key`.
pub fn find_entry<'a>(entries: &'a Vec<(String, ClxValue)>, key: &str) -> (found: Option<
    &'a ClxValue,
>)
    ensures
        match found {
            Some(v) => {
                &&& lookup_index(entries_view(entries@), key@) matches Some(i)
                &&& *v == entries@[i].1
                &&& lookup(entries_view(entries@), key@) == Some(v@)
            },
            None => lookup(entries_view(entries@), key@) is None,
        },
{
    let wanted: String = key.to_owned();
    let mut i: usize = 0;
    proof {
        lemma_lookup_index(entries_view(entries@), key@);
    }
    while i < entries.len()
        invariant
            i <= entries@.len(),
            wanted@ == key@,
            forall|k: int| 0 <= k < i ==> (#[trigger] entries_view(entries@)[k]).0 != key@,
        decreases entries@.len() - i,
    {
        if entries[i].0 == wanted {
            proof {
                lemma_lookup_index(entries_view(entries@), key@);
                assert(entries_view(entries@)[i as int].0 == key@);
            }
            return Some(&entries[i].1);
        }
        assert(entries_view(entries@)[i as int].0 != key@);
        i += 1;
    }
    proof {
        lemma_lookup_index(entries_view(entries@), key@);
        if lookup_index(entries_view(entries@), key@) is Some {
            let j = lookup_index(entries_view(entries@), key@).unwrap();
            assert(entries_view(entries@)[j].0 == key@);
        }
    }
    None
}

} // verus!
