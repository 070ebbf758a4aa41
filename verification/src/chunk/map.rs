//! The chunk directory: where each named chunk lies in the file.

use crate::chunk::header::{chunk_header_at, ChunkHeader};
use crate::constants::{ND2_CHUNKMAP_SIGNATURE, ND2_CHUNK_MAGIC, ND2_FILEMAP_SIGNATURE};
use crate::error::{Fault, Nd2Error};
use crate::le::{bytes_match_at, copy_range, has_bytes_at, in_bounds, le_u64_at, same_bytes, u64_at};
use std::collections::HashMap;
use vstd::prelude::*;
use vstd::slice::slice_subrange;

verus! {

/// One entry of the directory: the name of a chunk, with its `!`, and
/// where the chunk starts and how many bytes of data it holds.
#[derive(Debug, Clone, PartialEq, Eq)]
pub struct ChunkEntry {
    pub name: Vec<u8>,
    pub offset: u64,
    pub size: u64,
}

/// The directory of a file: for each chunk name the offset of the chunk
/// and the size of its data. No name occurs twice.
///
/// Names are byte strings, and the verifier models the hash map of std
/// for integer keys only. So the directory keeps its entries in a list
/// and beside them a hash map from the hash of a name, an integer, to
/// the positions of the entries whose names have that hash: a name is
/// found without a look at every entry, and what is found is proved to
/// be what the mapping holds.
#[derive(Debug)]
pub struct ChunkMap {
    entries: Vec<ChunkEntry>,
    index: HashMap<u64, Vec<usize>>,
}

/// The mapping that a list of entries spells, a later entry replacing an
/// earlier one of the same name.
pub open spec fn entries_map(entries: Seq<ChunkEntry>) -> Map<Seq<u8>, (u64, u64)>
    decreases entries.len(),
{
    if entries.len() == 0 {
        Map::empty()
    } else {
        entries_map(entries.drop_last()).insert(
            entries.last().name@,
            (entries.last().offset, entries.last().size),
        )
    }
}

/// Whether no two entries share a name.
pub open spec fn distinct_entries(entries: Seq<ChunkEntry>) -> bool {
    forall|i: int, j: int|
        0 <= i < j < entries.len() ==> (#[trigger] entries[i]).name@ != (#[trigger] entries[j]).name@
}

/// The mapping holds exactly the names of the entries, and for each name
/// that occurs once, what its entry says.
pub proof fn lemma_entries_map(entries: Seq<ChunkEntry>)
    ensures
        forall|k: Seq<u8>| #[trigger]
            entries_map(entries).dom().contains(k) <==> exists|i: int|
                0 <= i < entries.len() && (#[trigger] entries[i]).name@ == k,
        distinct_entries(entries) ==> forall|i: int|
            0 <= i < entries.len() ==> entries_map(entries)[(#[trigger] entries[i]).name@] == (
                entries[i].offset,
                entries[i].size,
            ),
    decreases entries.len(),
{
    if entries.len() > 0 {
        let front = entries.drop_last();
        let last = entries.last();
        lemma_entries_map(front);
        assert forall|k: Seq<u8>| #[trigger]
            entries_map(entries).dom().contains(k) <==> exists|i: int|
                0 <= i < entries.len() && (#[trigger] entries[i]).name@ == k by {
            if entries_map(entries).dom().contains(k) {
                if k == last.name@ {
                    assert(entries[entries.len() - 1].name@ == k);
                } else {
                    assert(entries_map(front).dom().contains(k));
                    let i = choose|i: int| 0 <= i < front.len() && (#[trigger] front[i]).name@ == k;
                    assert(front[i] == entries[i]);
                    assert(entries[i].name@ == k);
                }
            }
            if exists|i: int| 0 <= i < entries.len() && (#[trigger] entries[i]).name@ == k {
                let i = choose|i: int| 0 <= i < entries.len() && (#[trigger] entries[i]).name@ == k;
                if i < front.len() {
                    assert(front[i] == entries[i]);
                    assert(front[i].name@ == k);
                    assert(entries_map(front).dom().contains(k));
                } else {
                    assert(k == last.name@);
                }
                assert(entries_map(entries).dom().contains(k));
            }
        }
        if distinct_entries(entries) {
            assert(distinct_entries(front)) by {
                assert forall|i: int, j: int| 0 <= i < j < front.len() implies (#[trigger] front[i]).name@
                    != (#[trigger] front[j]).name@ by {
                    assert(front[i] == entries[i] && front[j] == entries[j]);
                }
            }
            assert forall|i: int| 0 <= i < entries.len() implies entries_map(entries)[(
            #[trigger] entries[i]).name@] == (entries[i].offset, entries[i].size) by {
                if i < front.len() {
                    assert(front[i] == entries[i]);
                    assert(entries[i].name@ != entries[entries.len() - 1].name@);
                }
            }
        }
    }
}

/// One step of the hash of a name: the byte is mixed in and the whole
/// multiplied, modulo 2 to the 64.
pub open spec fn hash_step(h: u64, b: u8) -> u64 {
    (((h ^ (b as u64)) as int * 0x100_0000_01b3) % 0x1_0000_0000_0000_0000) as u64
}

/// The hash of a name.
pub open spec fn name_hash(name: Seq<u8>) -> u64
    decreases name.len(),
{
    if name.len() == 0 {
        0xcbf2_9ce4_8422_2325
    } else {
        hash_step(name_hash(name.drop_last()), name.last())
    }
}

/// Computes the hash of a name.
fn hash_of(name: &[u8]) -> (h: u64)
    ensures
        h == name_hash(name@),
{
    let mut h: u64 = 0xcbf2_9ce4_8422_2325;
    let mut i: usize = 0;
    assert(name@.take(0) =~= Seq::<u8>::empty());
    while i < name.len()
        invariant
            i <= name@.len(),
            h == name_hash(name@.take(i as int)),
        decreases name@.len() - i,
    {
        let mixed: u64 = h ^ (name[i] as u64);
        assert(mixed as int * 0x100_0000_01b3 <= 0xffff_ffff_ffff_ffff * 0x100_0000_01b3)
            by (nonlinear_arith)
            requires
                mixed <= 0xffff_ffff_ffff_ffff,
        ;
        let wide: u128 = mixed as u128 * 0x100_0000_01b3u128;
        assert(name@.take(i + 1).drop_last() =~= name@.take(i as int));
        assert(name@.take(i + 1).last() == name@[i as int]);
        h = (wide % 0x1_0000_0000_0000_0000u128) as u64;
        i += 1;
    }
    assert(name@.take(name@.len() as int) =~= name@);
    h
}

/// Whether the index leads to every entry and to nothing but entries:
/// each entry stands under the hash of its name, and every position in
/// the index is that of an entry.
pub open spec fn leads_to(index: Map<u64, Vec<usize>>, entries: Seq<ChunkEntry>) -> bool {
    &&& forall|i: int|
        0 <= i < entries.len() ==> index.contains_key(name_hash((#[trigger] entries[i]).name@))
            && index[name_hash(entries[i].name@)]@.contains(i as usize)
    &&& forall|h: u64, j: int|
        index.contains_key(h) && 0 <= j < index[h]@.len() ==> (#[trigger] index[h]@[j])
            < entries.len()
}

impl View for ChunkMap {
    type V = Map<Seq<u8>, (u64, u64)>;

    closed spec fn view(&self) -> Map<Seq<u8>, (u64, u64)> {
        entries_map(self.entries@)
    }
}

impl ChunkMap {
    #[verifier::type_invariant]
    spec fn sound(&self) -> bool {
        &&& distinct_entries(self.entries@)
        &&& leads_to(self.index@, self.entries@)
    }

    /// The names of the chunks, in the order in which the directory
    /// lists them.
    pub closed spec fn names(&self) -> Seq<Seq<u8>> {
        self.entries@.map_values(|e: ChunkEntry| e.name@)
    }

    /// An empty directory.
    pub fn new() -> (map: ChunkMap)
        ensures
            map@ == Map::<Seq<u8>, (u64, u64)>::empty(),
            map.names().len() == 0,
    {
        ChunkMap { entries: Vec::new(), index: HashMap::new() }
    }

    /// Position of the entry named `name`.
    fn position(&self, name: &[u8]) -> (found: Option<usize>)
        ensures
            match found {
                Some(i) => i < self.entries@.len() && self.entries@[i as int].name@ == name@,
                None => forall|k: int|
                    0 <= k < self.entries@.len() ==> (#[trigger] self.entries@[k]).name@ != name@,
            },
    {
        broadcast use vstd::std_specs::hash::group_hash_axioms;

        proof {
            use_type_invariant(self);
        }
        let h = hash_of(name);
        match self.index.get(&h) {
            None => {
                assert forall|k: int| 0 <= k < self.entries@.len() implies (
                #[trigger] self.entries@[k]).name@ != name@ by {
                    if self.entries@[k].name@ == name@ {
                        assert(self.index@.contains_key(name_hash(self.entries@[k].name@)));
                    }
                }
                None
            },
            Some(bucket) => {
                assert(self.index@.contains_key(h) && self.index@[h] == *bucket);
                let mut j: usize = 0;
                while j < bucket.len()
                    invariant
                        j <= bucket@.len(),
                        self.index@.contains_key(h),
                        self.index@[h] == *bucket,
                        leads_to(self.index@, self.entries@),
                        forall|q: int|
                            0 <= q < j ==> self.entries@[(#[trigger] bucket@[q]) as int].name@
                                != name@,
                    decreases bucket@.len() - j,
                {
                    let i = bucket[j];
                    assert(self.index@[h]@[j as int] < self.entries@.len());
                    if same_bytes(self.entries[i].name.as_slice(), name) {
                        return Some(i);
                    }
                    j += 1;
                }
                let total: usize = self.entries.len();
                assert forall|k: int| 0 <= k < self.entries@.len() implies (
                #[trigger] self.entries@[k]).name@ != name@ by {
                    if self.entries@[k].name@ == name@ {
                        let at: usize = k as usize;
                        assert(name_hash(self.entries@[k].name@) == h);
                        assert(self.index@[h]@.contains(at));
                        let q = choose|q: int| 0 <= q < bucket@.len() && bucket@[q] == at;
                        assert(self.entries@[bucket@[q] as int].name@ != name@);
                    }
                }
                None
            },
        }
    }

    /// Where the chunk named `name` lies: its offset and the size of its
    /// data.
    pub fn get(&self, name: &[u8]) -> (found: Option<(u64, u64)>)
        ensures
            match found {
                Some(place) => self@.dom().contains(name@) && self@[name@] == place,
                None => !self@.dom().contains(name@),
            },
    {
        proof {
            use_type_invariant(self);
            lemma_entries_map(self.entries@);
        }
        match self.position(name) {
            Some(i) => Some((self.entries[i].offset, self.entries[i].size)),
            None => None,
        }
    }

    /// Whether the directory lists a chunk named `name`.
    pub fn contains_key(&self, name: &[u8]) -> (listed: bool)
        ensures
            listed == self@.dom().contains(name@),
    {
        self.get(name).is_some()
    }

    /// How many chunks the directory lists. The list of names holds
    /// every name of the directory, each once.
    pub fn len(&self) -> (count: usize)
        ensures
            count == self.names().len(),
            self.names().no_duplicates(),
            forall|name: Seq<u8>| #[trigger] self@.dom().contains(name) <==> self.names().contains(name),
    {
        proof {
            use_type_invariant(self);
            lemma_entries_map(self.entries@);
            let names = self.names();
            assert forall|i: int, j: int| 0 <= i < names.len() && 0 <= j < names.len() && i != j implies names[i]
                != names[j] by {
                if i < j {
                    assert(self.entries@[i].name@ != self.entries@[j].name@);
                } else {
                    assert(self.entries@[j].name@ != self.entries@[i].name@);
                }
            }
            assert forall|name: Seq<u8>| #[trigger]
                self@.dom().contains(name) <==> names.contains(name) by {
                if self@.dom().contains(name) {
                    let i = choose|i: int|
                        0 <= i < self.entries@.len() && (#[trigger] self.entries@[i]).name@ == name;
                    assert(names[i] == name);
                }
                if names.contains(name) {
                    let i = choose|i: int| 0 <= i < names.len() && names[i] == name;
                    assert(self.entries@[i].name@ == name);
                }
            }
        }
        self.entries.len()
    }

    /// The name of the `i`-th chunk of the directory.
    pub fn name_at(&self, i: usize) -> (name: &Vec<u8>)
        requires
            i < self.names().len(),
        ensures
            name@ == self.names()[i as int],
            self@.dom().contains(name@),
    {
        proof {
            lemma_entries_map(self.entries@);
        }
        &self.entries[i].name
    }

    /// The directory with the chunk `name` listed at `offset` with `size`
    /// bytes of data; an entry of the same name is replaced.
    pub fn insert(self, name: Vec<u8>, offset: u64, size: u64) -> (map: ChunkMap)
        ensures
            map@ == self@.insert(name@, (offset, size)),
    {
        broadcast use vstd::std_specs::hash::group_hash_axioms;

        proof {
            use_type_invariant(&self);
            lemma_entries_map(self.entries@);
        }
        let ghost before = self.entries@;
        let ghost old_index = self.index@;
        let found = self.position(name.as_slice());
        let mut entries = self.entries;
        let mut index = self.index;
        match found {
            Some(i) => {
                let ghost key = name@;
                entries.remove(i);
                entries.insert(i, ChunkEntry { name, offset, size });
                let ghost after = entries@;
                proof {
                    assert(after =~= before.update(
                        i as int,
                        ChunkEntry { name: after[i as int].name, offset, size },
                    ));
                    assert(distinct_entries(after)) by {
                        assert forall|a: int, b: int| 0 <= a < b < after.len() implies (
                        #[trigger] after[a]).name@ != (#[trigger] after[b]).name@ by {
                            assert(after[a].name@ == before[a].name@);
                            assert(after[b].name@ == before[b].name@);
                        }
                    }
                    assert(leads_to(old_index, after)) by {
                        assert forall|k: int| 0 <= k < after.len() implies old_index.contains_key(
                            name_hash((#[trigger] after[k]).name@),
                        ) && old_index[name_hash(after[k].name@)]@.contains(k as usize) by {
                            assert(after[k].name@ == before[k].name@);
                        }
                    }
                    lemma_entries_map(after);
                    assert(entries_map(after) =~= entries_map(before).insert(key, (offset, size))) by {
                        assert forall|k: Seq<u8>|
                            entries_map(after).dom().contains(k) <==> #[trigger] entries_map(
                                before,
                            ).insert(key, (offset, size)).dom().contains(k) by {
                            if entries_map(after).dom().contains(k) {
                                let j = choose|j: int|
                                    0 <= j < after.len() && (#[trigger] after[j]).name@ == k;
                                assert(before[j].name@ == k);
                            }
                            if entries_map(before).dom().contains(k) {
                                let j = choose|j: int|
                                    0 <= j < before.len() && (#[trigger] before[j]).name@ == k;
                                assert(after[j].name@ == k);
                            }
                            if k == key {
                                assert(after[i as int].name@ == k);
                            }
                        }
                        assert forall|k: Seq<u8>| entries_map(after).dom().contains(k) implies #[trigger] entries_map(
                            after,
                        )[k] == entries_map(before).insert(key, (offset, size))[k] by {
                            let j = choose|j: int|
                                0 <= j < after.len() && (#[trigger] after[j]).name@ == k;
                            assert(before[j].name@ == k);
                            if j != i {
                                assert(after[j] == before[j]);
                                assert(before[j].name@ != before[i as int].name@);
                            }
                        }
                    }
                }
            },
            None => {
                let h = hash_of(name.as_slice());
                let at: usize = entries.len();
                let mut bucket: Vec<usize> = match index.remove(&h) {
                    Some(b) => b,
                    None => Vec::new(),
                };
                let ghost old_bucket = bucket@;
                bucket.push(at);
                index.insert(h, bucket);
                entries.push(ChunkEntry { name, offset, size });
                proof {
                    let after = entries@;
                    assert(after.drop_last() =~= before);
                    assert(distinct_entries(after)) by {
                        assert forall|a: int, b: int| 0 <= a < b < after.len() implies (
                        #[trigger] after[a]).name@ != (#[trigger] after[b]).name@ by {
                            assert(after[a] == before[a]);
                            if b < before.len() {
                                assert(after[b] == before[b]);
                            }
                        }
                    }
                    assert(index@[h]@ == old_bucket.push(at));
                    assert(index@[h]@[old_bucket.len() as int] == at);
                    assert(leads_to(index@, after)) by {
                        assert forall|k: int| 0 <= k < after.len() implies index@.contains_key(
                            name_hash((#[trigger] after[k]).name@),
                        ) && index@[name_hash(after[k].name@)]@.contains(k as usize) by {
                            if k < before.len() {
                                assert(after[k] == before[k]);
                                let hk = name_hash(before[k].name@);
                                assert(old_index.contains_key(hk) && old_index[hk]@.contains(
                                    k as usize,
                                ));
                                if hk == h {
                                    let q = choose|q: int|
                                        0 <= q < old_index[hk]@.len() && old_index[hk]@[q]
                                            == k as usize;
                                    assert(old_bucket == old_index[hk]@);
                                    assert(index@[h]@[q] == k as usize);
                                }
                            }
                        }
                        assert forall|g: u64, j: int|
                            index@.contains_key(g) && 0 <= j < index@[g]@.len() implies (
                        #[trigger] index@[g]@[j]) < after.len() by {
                            if g == h {
                                if j < old_bucket.len() {
                                    assert(old_index.contains_key(h));
                                    assert(old_index[h]@[j] < before.len());
                                }
                            } else {
                                assert(old_index.contains_key(g));
                                assert(old_index[g]@[j] < before.len());
                            }
                        }
                    }
                }
            },
        }
        ChunkMap { entries, index }
    }
}

/// How many bytes from `pos` on precede the first `!`, counting on from
/// `k`; none where the buffer ends before one.
pub open spec fn name_end(buf: Seq<u8>, pos: int, k: nat) -> Option<nat>
    decreases buf.len() - (pos + k),
{
    if !in_bounds(buf, pos + k, 1) {
        None
    } else if buf[pos + k] == 0x21 {
        Some(k)
    } else {
        name_end(buf, pos, k + 1)
    }
}

/// The directory that the entries of `buf` from `pos` on spell, added to
/// `acc`.
///
/// An entry is a name that ends with its first `!`, then the offset and
/// the size in eight bytes each. A name whose last 32 bytes are the
/// directory signature ends the directory, and so does the end of the
/// buffer after a whole entry. A buffer that ends inside an entry is
/// truncated.
pub open spec fn directory_from(buf: Seq<u8>, pos: int, acc: Map<Seq<u8>, (u64, u64)>) -> Result<
    Map<Seq<u8>, (u64, u64)>,
    Fault,
>
    decreases buf.len() - pos,
{
    if pos < 0 || pos >= buf.len() {
        Ok(acc)
    } else {
        match name_end(buf, pos, 0) {
            None => Err(Fault::Io),
            Some(k) => {
                let after = pos + k + 1;
                if has_bytes_at(buf, after - 32, ND2_CHUNKMAP_SIGNATURE@) && k + 1 >= 32 {
                    Ok(acc)
                } else if !in_bounds(buf, after, 16) {
                    Err(Fault::Io)
                } else {
                    directory_from(
                        buf,
                        after + 16,
                        acc.insert(
                            buf.subrange(pos, after),
                            (le_u64_at(buf, after), le_u64_at(buf, after + 8)),
                        ),
                    )
                }
            },
        }
    }
}

/// Where the data of the directory chunk lies, by the trailer of the
/// file: the position of its first byte and its length.
///
/// The last 40 bytes of the file are the directory signature and the
/// offset of the directory chunk. That chunk must have the chunk magic
/// and the file-map signature as its name.
pub open spec fn directory_place(data: Seq<u8>) -> Result<(int, int), Fault> {
    if data.len() < 40 {
        Err(Fault::Io)
    } else if !has_bytes_at(data, data.len() - 40, ND2_CHUNKMAP_SIGNATURE@) {
        Err(Fault::InvalidChunkmapSignature)
    } else {
        let offset = le_u64_at(data, data.len() - 8) as int;
        match chunk_header_at(data, offset) {
            None => Err(Fault::Io),
            Some(header) => if header.magic != ND2_CHUNK_MAGIC {
                Err(Fault::InvalidMagic { expected: ND2_CHUNK_MAGIC, actual: header.magic })
            } else if !in_bounds(data, offset + 16, header.name_length as int) {
                Err(Fault::Io)
            } else if header.name_length != 32 || !has_bytes_at(
                data,
                offset + 16,
                ND2_FILEMAP_SIGNATURE@,
            ) {
                Err(Fault::InvalidFormat)
            } else if !in_bounds(data, offset + 48, header.data_length as int) {
                Err(Fault::Io)
            } else {
                Ok((offset + 48, header.data_length as int))
            },
        }
    }
}

/// The directory of a file.
pub open spec fn directory_of(data: Seq<u8>) -> Result<Map<Seq<u8>, (u64, u64)>, Fault> {
    match directory_place(data) {
        Err(f) => Err(f),
        Ok((start, len)) => directory_from(data.subrange(start, start + len), 0, Map::empty()),
    }
}

/// The data of the chunk named `name`.
///
/// The directory gives the offset of the chunk and the size of its data.
/// The chunk starts with a header that must have the chunk magic; its
/// data follows its name.
pub open spec fn chunk_bytes(data: Seq<u8>, directory: Map<Seq<u8>, (u64, u64)>, name: Seq<u8>) -> Result<
    Seq<u8>,
    Fault,
> {
    if !directory.dom().contains(name) {
        Err(Fault::ChunkNotFound)
    } else {
        let (offset, size) = directory[name];
        match chunk_header_at(data, offset as int) {
            None => Err(Fault::Io),
            Some(header) => if header.magic != ND2_CHUNK_MAGIC {
                Err(Fault::InvalidMagic { expected: ND2_CHUNK_MAGIC, actual: header.magic })
            } else {
                let start = offset + 16 + header.name_length;
                if !in_bounds(data, start, size as int) {
                    Err(Fault::Io)
                } else {
                    Ok(data.subrange(start, start + size))
                }
            },
        }
    }
}

/// The text that a byte string gives when it is decoded as UTF-8 with
/// every invalid sequence replaced by U+FFFD, as
/// `String::from_utf8_lossy` does it.
pub uninterp spec fn utf8_lossy(bytes: Seq<u8>) -> Seq<char>;

/// Whether an error, where it says that a chunk was not found, carries
/// the name `name` as text: decoded as UTF-8, invalid bytes replaced.
pub open spec fn names_missing_chunk(e: Nd2Error, name: Seq<u8>) -> bool {
    e matches Nd2Error::ChunkNotFound { name: carried } ==> carried@ == utf8_lossy(name)
}

/// Calls `String::from_utf8_lossy` and takes the text as a `String`.
#[verifier::external_body]
pub(crate) fn lossy_text(bytes: &[u8]) -> (text: String)
    ensures
        text@ == utf8_lossy(bytes@),
{
    String::from_utf8_lossy(bytes).into_owned()
}

/// What went wrong when the source ends too early.
fn end_of_source() -> (e: Nd2Error)
    ensures
        e@ == Fault::Io,
        e matches Nd2Error::Io(message) && message@ == "failed to fill whole buffer"@,
{
    Nd2Error::Io("failed to fill whole buffer".to_string())
}

/// Finds the data of the directory chunk.
fn locate_directory(data: &[u8]) -> (outcome: Result<(usize, usize), Nd2Error>)
    ensures
        match outcome {
            Ok((start, len)) => {
                &&& directory_place(data@) == Ok::<(int, int), Fault>((start as int, len as int))
                &&& start + len <= data@.len()
            },
            Err(e) => directory_place(data@) == Err::<(int, int), Fault>(e@),
        },
{
    let total: usize = data.len();
    if total < 40 {
        return Err(end_of_source());
    }
    if !bytes_match_at(data, total - 40, ND2_CHUNKMAP_SIGNATURE.as_slice()) {
        return Err(Nd2Error::InvalidChunkmapSignature);
    }
    let offset: u64 = match u64_at(data, total - 8) {
        Some(v) => v,
        None => {
            return Err(end_of_source());
        },
    };
    if offset > total as u64 {
        return Err(end_of_source());
    }
    let at: usize = offset as usize;
    let header = match ChunkHeader::read(data, at) {
        Ok(h) => h,
        Err(e) => {
            return Err(e);
        },
    };
    match header.validate_magic() {
        Ok(_) => {},
        Err(e) => {
            return Err(e);
        },
    }
    if header.name_length as u64 > (total - (at + 16)) as u64 {
        return Err(end_of_source());
    }
    if header.name_length != 32 || !bytes_match_at(
        data,
        at + 16,
        ND2_FILEMAP_SIGNATURE.as_slice(),
    ) {
        return Err(Nd2Error::InvalidFormat("Invalid chunkmap section name".to_string()));
    }
    if header.data_length > (total - (at + 48)) as u64 {
        return Err(end_of_source());
    }
    Ok((at + 48, header.data_length as usize))
}

/// Reads the entries of a directory buffer.
fn read_entries(buf: &[u8]) -> (outcome: Result<ChunkMap, Nd2Error>)
    ensures
        match outcome {
            Ok(map) => directory_from(buf@, 0, Map::empty()) == Ok::<
                Map<Seq<u8>, (u64, u64)>,
                Fault,
            >(map@),
            Err(e) => directory_from(buf@, 0, Map::empty()) == Err::<
                Map<Seq<u8>, (u64, u64)>,
                Fault,
            >(e@),
        },
{
    let total: usize = buf.len();
    let mut map = ChunkMap::new();
    let mut pos: usize = 0;
    while pos < total
        invariant
            total == buf@.len(),
            pos <= total,
            directory_from(buf@, 0, Map::empty()) == directory_from(buf@, pos as int, map@),
        decreases total - pos,
    {
        let mut end: usize = pos;
        let ghost mut k: nat = 0;
        loop
            invariant
                total == buf@.len(),
                pos <= end <= total,
                pos < total,
                end == pos + k,
                name_end(buf@, pos as int, 0) == name_end(buf@, pos as int, k),
                directory_from(buf@, 0, Map::empty()) == directory_from(buf@, pos as int, map@),
            ensures
                end < total,
                name_end(buf@, pos as int, 0) == Some(k),
                end == pos + k,
            decreases total - end,
        {
            if end >= total {
                return Err(end_of_source());
            }
            if buf[end] == 0x21 {
                break ;
            }
            end += 1;
            proof {
                k = k + 1;
            }
        }
        let after: usize = end + 1;
        if after - pos >= 32 && bytes_match_at(buf, after - 32, ND2_CHUNKMAP_SIGNATURE.as_slice()) {
            return Ok(map);
        }
        let offset = match u64_at(buf, after) {
            Some(v) => v,
            None => {
                return Err(end_of_source());
            },
        };
        if total - after < 16 {
            return Err(end_of_source());
        }
        let size = match u64_at(buf, after + 8) {
            Some(v) => v,
            None => {
                return Err(end_of_source());
            },
        };
        let name = copy_range(buf, pos, after - pos);
        map = map.insert(name, offset, size);
        pos = after + 16;
    }
    Ok(map)
}

/// Reads the chunk directory of a file from its end.
///
/// Fails with an I/O error where the file is shorter than its trailer or
/// the directory reaches past its end, with an invalid-signature error
/// where the trailer is not the directory signature, with an
/// invalid-magic error where the directory chunk does not start with the
/// chunk magic, and with an invalid-format error where that chunk is not
/// named as a file map.
pub fn read_chunkmap(data: &[u8]) -> (outcome: Result<ChunkMap, Nd2Error>)
    ensures
        match outcome {
            Ok(map) => directory_of(data@) == Ok::<Map<Seq<u8>, (u64, u64)>, Fault>(map@),
            Err(e) => directory_of(data@) == Err::<Map<Seq<u8>, (u64, u64)>, Fault>(e@),
        },
{
    let (start, len) = match locate_directory(data) {
        Ok(place) => place,
        Err(e) => {
            return Err(e);
        },
    };
    let total: usize = data.len();
    assert(start + len <= total);
    read_entries(slice_subrange(data, start, start + len))
}

/// Reads the data of the chunk named `name`.
///
/// Fails with a not-found error that carries the name as text where the
/// directory does not list the name, with an I/O error where the chunk
/// reaches past the end of the file, and with an invalid-magic error
/// where it does not start with the chunk magic.
pub fn read_chunk(data: &[u8], chunkmap: &ChunkMap, name: &[u8]) -> (outcome: Result<
    Vec<u8>,
    Nd2Error,
>)
    ensures
        match outcome {
            Ok(bytes) => chunk_bytes(data@, chunkmap@, name@) == Ok::<Seq<u8>, Fault>(bytes@),
            Err(e) => {
                &&& chunk_bytes(data@, chunkmap@, name@) == Err::<Seq<u8>, Fault>(e@)
                &&& names_missing_chunk(e, name@)
            },
        },
{
    let (offset, size) = match chunkmap.get(name) {
        Some(place) => place,
        None => {
            return Err(Nd2Error::ChunkNotFound { name: lossy_text(name) });
        },
    };
    let total: usize = data.len();
    if offset > total as u64 {
        return Err(end_of_source());
    }
    let at: usize = offset as usize;
    let header = match ChunkHeader::read(data, at) {
        Ok(h) => h,
        Err(e) => {
            return Err(e);
        },
    };
    match header.validate_magic() {
        Ok(_) => {},
        Err(e) => {
            return Err(e);
        },
    }
    let left: usize = total - (at + 16);
    if header.name_length as u64 > left as u64 {
        return Err(end_of_source());
    }
    let start: usize = at + 16 + header.name_length as usize;
    if size > (total - start) as u64 {
        return Err(end_of_source());
    }
    Ok(copy_range(data, start, size as usize))
}

} // verus!
