//! The reader: an open file, its version, its chunk directory, and its
//! metadata, each part decoded when it is first asked for.

use crate::axes::{
    axis_order_of, coords_in, resolve_axes, shape_of, sizes_of, AxisLayout, FrameIndex, Sizes,
};
use crate::chunk::map::{
    chunk_bytes, directory_of, lossy_text, names_missing_chunk, read_chunk, read_chunkmap,
    utf8_lossy, ChunkMap,
};
use crate::constants::{
    ATTRIBUTES_CHUNK_V2, ATTRIBUTES_CHUNK_V3, EXPERIMENT_CHUNK_V2, EXPERIMENT_CHUNK_V3, JP2_MAGIC,
    ND2_CHUNK_MAGIC, ND2_FILE_SIGNATURE, TEXT_INFO_CHUNK_V2, TEXT_INFO_CHUNK_V3,
};
use crate::error::{Fault, Nd2Error};
use crate::frame::{
    chunk_name_of_frame, decode_frame, decoded_frame, frame_chunk_name, frame_geometry,
    frame_samples, plane_of, plane_pixels, take_plane,
};
use crate::le::{bytes_match_at, has_bytes_at, le_u32_at, le_u64_at, u32_at, u64_at};
use crate::metadata::attributes::{attributes_of, parse_attributes};
use crate::metadata::experiment::{
    all_run, is_experiment_root, lemma_loops_run, loops_in, parse_experiment,
};
use crate::metadata::text_info::{is_text_info_of, parse_text_info};
use crate::parse::clx_lite::{decoded, ClxLiteParser, MAX_COMPRESS_DEPTH};
use crate::parse::value::ClxTree;
use crate::ravel::ravel;
use crate::types::attributes::Attributes;
use crate::types::experiment::{loops_view, ExpLoop, LoopModel};
use crate::types::text_info::TextInfo;
use vstd::prelude::*;

verus! {

/// The number that an ASCII digit stands for, and zero for any other
/// byte.
pub open spec fn digit_value(b: u8) -> u32 {
    if 0x30 <= b <= 0x39 {
        (b - 0x30) as u32
    } else {
        0
    }
}

/// The version that the header of a file states.
///
/// The header is 112 bytes long: a chunk header whose name length is 32
/// and whose data length is 64, the file signature, and 64 bytes whose
/// fourth and sixth are the digits of the major and the minor version.
/// A file that starts with the magic of the legacy container has
/// version 1.0.
pub open spec fn version_of(data: Seq<u8>) -> Result<(u32, u32), Fault> {
    if data.len() < 112 {
        Err(Fault::Io)
    } else if le_u32_at(data, 0) == JP2_MAGIC {
        Ok((1u32, 0u32))
    } else if le_u32_at(data, 0) != ND2_CHUNK_MAGIC {
        Err(Fault::InvalidMagic { expected: ND2_CHUNK_MAGIC, actual: le_u32_at(data, 0) })
    } else if le_u32_at(data, 4) != 32 || le_u64_at(data, 8) != 64 {
        Err(Fault::InvalidFormat)
    } else if !has_bytes_at(data, 16, ND2_FILE_SIGNATURE@) {
        Err(Fault::InvalidFormat)
    } else {
        Ok((digit_value(data[51]), digit_value(data[53])))
    }
}

/// What opening a file gives: its version, which must be 2.x or 3.x, and
/// its chunk directory.
pub open spec fn opened(data: Seq<u8>) -> Result<((u32, u32), Map<Seq<u8>, (u64, u64)>), Fault> {
    match version_of(data) {
        Err(f) => Err(f),
        Ok(version) => if version.0 < 2 || version.0 > 3 {
            Err(Fault::UnsupportedVersion { major: version.0, minor: version.1 })
        } else {
            match directory_of(data) {
                Err(f) => Err(f),
                Ok(directory) => Ok((version, directory)),
            }
        },
    }
}

/// The name of the attributes chunk in a file of the given version.
pub open spec fn attributes_chunk(version: (u32, u32)) -> Seq<u8> {
    if version.0 >= 3 {
        ATTRIBUTES_CHUNK_V3@
    } else {
        ATTRIBUTES_CHUNK_V2@
    }
}

/// The name of the experiment chunk in a file of the given version.
pub open spec fn experiment_chunk(version: (u32, u32)) -> Seq<u8> {
    if version.0 >= 3 {
        EXPERIMENT_CHUNK_V3@
    } else {
        EXPERIMENT_CHUNK_V2@
    }
}

/// The name of the text-info chunk in a file of the given version.
pub open spec fn text_info_chunk(version: (u32, u32)) -> Seq<u8> {
    if version.0 >= 3 {
        TEXT_INFO_CHUNK_V3@
    } else {
        TEXT_INFO_CHUNK_V2@
    }
}

/// The tree that the chunk named `name` spells, with names as they are.
pub open spec fn chunk_tree(
    data: Seq<u8>,
    directory: Map<Seq<u8>, (u64, u64)>,
    name: Seq<u8>,
) -> Result<ClxTree, Fault> {
    match chunk_bytes(data, directory, name) {
        Err(f) => Err(f),
        Ok(bytes) => decoded(bytes, false, MAX_COMPRESS_DEPTH as nat),
    }
}

/// The attributes of a file. A file without an attributes chunk has
/// none, which is an error.
pub open spec fn file_attributes(
    data: Seq<u8>,
    version: (u32, u32),
    directory: Map<Seq<u8>, (u64, u64)>,
) -> Result<Attributes, Fault> {
    match chunk_tree(data, directory, attributes_chunk(version)) {
        Err(f) => Err(f),
        Ok(tree) => match attributes_of(tree) {
            Some(attributes) => Ok(attributes),
            None => Err(Fault::MetadataParse),
        },
    }
}

/// The experiment of a file. A file without an experiment chunk has no
/// loops.
pub open spec fn file_experiment(
    data: Seq<u8>,
    version: (u32, u32),
    directory: Map<Seq<u8>, (u64, u64)>,
) -> Result<Seq<LoopModel>, Fault> {
    if !directory.dom().contains(experiment_chunk(version)) {
        Ok(Seq::empty())
    } else {
        match chunk_tree(data, directory, experiment_chunk(version)) {
            Err(f) => Err(f),
            Ok(tree) => if is_experiment_root(tree) {
                Ok(loops_in(tree))
            } else {
                Err(Fault::MetadataParse)
            },
        }
    }
}

/// The tree of the text info of a file; a file without a text-info chunk
/// has none.
pub open spec fn file_text_tree(
    data: Seq<u8>,
    version: (u32, u32),
    directory: Map<Seq<u8>, (u64, u64)>,
) -> Result<Option<ClxTree>, Fault> {
    if !directory.dom().contains(text_info_chunk(version)) {
        Ok(None)
    } else {
        match chunk_tree(data, directory, text_info_chunk(version)) {
            Err(f) => Err(f),
            Ok(tree) => Ok(Some(tree)),
        }
    }
}

/// Whether `info` is the text info of a file whose text-info tree is
/// `tree`: empty where the file has no such tree.
pub open spec fn is_text_info(tree: Option<ClxTree>, info: TextInfo) -> bool {
    match tree {
        Some(t) => is_text_info_of(t, info),
        None => info.is_empty(),
    }
}

/// The sizes of the axes of a file with the given attributes and loops;
/// an error where the frames are more than the machine can count.
pub open spec fn layout_sizes(attributes: Attributes, loops: Seq<LoopModel>) -> Result<
    Sizes,
    Fault,
> {
    if sizes_of(attributes, loops).frame_count() > usize::MAX {
        Err(Fault::InvalidFormat)
    } else {
        Ok(sizes_of(attributes, loops))
    }
}

/// The sequence index of a frame in a file with the given attributes and
/// loops.
pub open spec fn sequence_index(attributes: Attributes, loops: Seq<LoopModel>, index: FrameIndex) -> nat {
    ravel(
        shape_of(axis_order_of(loops), sizes_of(attributes, loops)),
        coords_in(axis_order_of(loops), index),
    )
}

/// Whether the coordinates name a frame of a file of the given sizes.
pub open spec fn is_frame(sizes: Sizes, index: FrameIndex) -> bool {
    &&& index.p < sizes.p
    &&& index.t < sizes.t
    &&& index.c < sizes.c
    &&& index.z < sizes.z
}

/// What went wrong when the source ends too early.
fn end_of_source() -> (e: Nd2Error)
    ensures
        e@ == Fault::Io,
        e matches Nd2Error::Io(message) && message@ == "failed to fill whole buffer"@,
{
    Nd2Error::Io("failed to fill whole buffer".to_string())
}

/// The number that an ASCII digit stands for.
fn digit(b: u8) -> (value: u32)
    ensures
        value == digit_value(b),
{
    if 0x30 <= b && b <= 0x39 {
        (b - 0x30) as u32
    } else {
        0
    }
}

/// Reads the version that the header of a file states.
///
/// Fails with an I/O error where the file is shorter than its header,
/// with an invalid-magic error where it starts with neither the modern
/// nor the legacy magic, and with an invalid-format error where the
/// lengths or the signature of the header are not those of a file
/// header.
pub fn read_version(data: &[u8]) -> (outcome: Result<(u32, u32), Nd2Error>)
    ensures
        match outcome {
            Ok(version) => version_of(data@) == Ok::<(u32, u32), Fault>(version),
            Err(e) => version_of(data@) == Err::<(u32, u32), Fault>(e@),
        },
{
    if data.len() < 112 {
        return Err(end_of_source());
    }
    let magic = match u32_at(data, 0) {
        Some(v) => v,
        None => {
            return Err(end_of_source());
        },
    };
    if magic == JP2_MAGIC {
        return Ok((1, 0));
    }
    if magic != ND2_CHUNK_MAGIC {
        return Err(Nd2Error::InvalidMagic { expected: ND2_CHUNK_MAGIC, actual: magic });
    }
    let name_length = match u32_at(data, 4) {
        Some(v) => v,
        None => {
            return Err(end_of_source());
        },
    };
    let data_length = match u64_at(data, 8) {
        Some(v) => v,
        None => {
            return Err(end_of_source());
        },
    };
    if name_length != 32 || data_length != 64 {
        return Err(Nd2Error::InvalidFormat("Corrupt file header".to_string()));
    }
    if !bytes_match_at(data, 16, ND2_FILE_SIGNATURE.as_slice()) {
        return Err(Nd2Error::InvalidFormat("Invalid file signature".to_string()));
    }
    Ok((digit(data[51]), digit(data[53])))
}

/// An open ND2 file.
///
/// The reader owns the bytes of the file. It reads the version and the
/// chunk directory when it is opened, and decodes the attributes, the
/// experiment and the text info when each is first asked for; after
/// that it hands out what it has kept.
pub struct Nd2File {
    data: Vec<u8>,
    version: (u32, u32),
    chunkmap: ChunkMap,
    attributes: Option<Attributes>,
    experiment: Option<Vec<ExpLoop>>,
    text_info: Option<TextInfo>,
}

impl Nd2File {
    #[verifier::type_invariant]
    spec fn consistent(&self) -> bool {
        &&& opened(self.data@) == Ok::<((u32, u32), Map<Seq<u8>, (u64, u64)>), Fault>(
            (self.version, self.chunkmap@),
        )
        &&& self.attributes matches Some(a) ==> file_attributes(
            self.data@,
            self.version,
            self.chunkmap@,
        ) == Ok::<Attributes, Fault>(a)
        &&& self.experiment matches Some(l) ==> file_experiment(
            self.data@,
            self.version,
            self.chunkmap@,
        ) == Ok::<Seq<LoopModel>, Fault>(loops_view(l@))
        &&& self.text_info matches Some(i) ==> file_text_tree(
            self.data@,
            self.version,
            self.chunkmap@,
        ) matches Ok(tree) && is_text_info(tree, i)
    }

    /// The bytes of the file.
    pub closed spec fn source(&self) -> Seq<u8> {
        self.data@
    }

    /// The version of the file.
    pub closed spec fn spec_version(&self) -> (u32, u32) {
        self.version
    }

    /// The chunk directory of the file.
    pub closed spec fn directory(&self) -> Map<Seq<u8>, (u64, u64)> {
        self.chunkmap@
    }

    /// The names of the chunks, in the order of the directory.
    pub closed spec fn chunk_list(&self) -> Seq<Seq<u8>> {
        self.chunkmap.names()
    }

    /// Whether two readers read the same file.
    pub open spec fn same_file(&self, other: &Nd2File) -> bool {
        &&& self.source() == other.source()
        &&& self.spec_version() == other.spec_version()
        &&& self.directory() == other.directory()
        &&& self.chunk_list() == other.chunk_list()
    }

    /// The attributes of the file, or why it has none.
    pub open spec fn attributes_outcome(&self) -> Result<Attributes, Fault> {
        file_attributes(self.source(), self.spec_version(), self.directory())
    }

    /// The experiment of the file, or why it cannot be had.
    pub open spec fn experiment_outcome(&self) -> Result<Seq<LoopModel>, Fault> {
        file_experiment(self.source(), self.spec_version(), self.directory())
    }

    /// The tree of the text info of the file, or why it cannot be had.
    pub open spec fn text_tree_outcome(&self) -> Result<Option<ClxTree>, Fault> {
        file_text_tree(self.source(), self.spec_version(), self.directory())
    }

    /// Opens a file from its bytes: reads the version, which must be 2.x
    /// or 3.x, and the chunk directory.
    ///
    /// Fails as `read_version` and `read_chunkmap` do, and with an
    /// unsupported-version error for any other version, among them 1.0
    /// of the legacy container.
    pub fn open(data: Vec<u8>) -> (outcome: Result<Nd2File, Nd2Error>)
        ensures
            match outcome {
                Ok(file) => {
                    &&& file.source() == data@
                    &&& opened(data@) == Ok::<((u32, u32), Map<Seq<u8>, (u64, u64)>), Fault>(
                        (file.spec_version(), file.directory()),
                    )
                    &&& file.spec_version().0 == 2 || file.spec_version().0 == 3
                },
                Err(e) => opened(data@) == Err::<((u32, u32), Map<Seq<u8>, (u64, u64)>), Fault>(
                    e@,
                ),
            },
    {
        let version = match read_version(data.as_slice()) {
            Ok(v) => v,
            Err(e) => {
                return Err(e);
            },
        };
        if version.0 < 2 || version.0 > 3 {
            return Err(Nd2Error::UnsupportedVersion { major: version.0, minor: version.1 });
        }
        let chunkmap = match read_chunkmap(data.as_slice()) {
            Ok(m) => m,
            Err(e) => {
                return Err(e);
            },
        };
        Ok(Nd2File { data, version, chunkmap, attributes: None, experiment: None, text_info: None })
    }

    /// The version of the file, major then minor. The major version of
    /// an open file is 2 or 3.
    pub fn version(&self) -> (version: (u32, u32))
        ensures
            version == self.spec_version(),
            version.0 == 2 || version.0 == 3,
            version_of(self.source()) == Ok::<(u32, u32), Fault>(version),
    {
        proof {
            use_type_invariant(self);
        }
        self.version
    }

    /// Reads and decodes the chunk named `name`.
    fn read_tree(&self, name: &[u8]) -> (outcome: Result<crate::parse::value::ClxValue, Nd2Error>)
        ensures
            match outcome {
                Ok(tree) => chunk_tree(self.source(), self.directory(), name@) == Ok::<
                    ClxTree,
                    Fault,
                >(tree@),
                Err(e) => {
                    &&& chunk_tree(self.source(), self.directory(), name@) == Err::<
                        ClxTree,
                        Fault,
                    >(e@)
                    &&& names_missing_chunk(e, name@)
                    &&& e@ is ChunkNotFound ==> !self.directory().dom().contains(name@)
                },
            },
    {
        let data = match read_chunk(self.data.as_slice(), &self.chunkmap, name) {
            Ok(d) => d,
            Err(e) => {
                return Err(e);
            },
        };
        let parser = ClxLiteParser::new(false);
        parser.parse(data.as_slice())
    }

    /// The image attributes of the file, decoded on the first call.
    ///
    /// Fails where the attributes chunk is missing or cannot be read or
    /// decoded, or lacks a required attribute. The error for a missing
    /// chunk carries the name of the attributes chunk.
    pub fn attributes(&mut self) -> (outcome: Result<&Attributes, Nd2Error>)
        ensures
            final(self).same_file(old(self)),
            match outcome {
                Ok(attributes) => old(self).attributes_outcome() == Ok::<Attributes, Fault>(
                    *attributes,
                ),
                Err(e) => {
                    &&& old(self).attributes_outcome() == Err::<Attributes, Fault>(e@)
                    &&& names_missing_chunk(e, attributes_chunk(old(self).spec_version()))
                },
            },
    {
        proof {
            use_type_invariant(&*self);
        }
        if self.attributes.is_none() {
            let clx = if self.version.0 >= 3 {
                self.read_tree(ATTRIBUTES_CHUNK_V3.as_slice())
            } else {
                self.read_tree(ATTRIBUTES_CHUNK_V2.as_slice())
            };
            let clx = match clx {
                Ok(c) => c,
                Err(e) => {
                    return Err(e);
                },
            };
            let parsed = match parse_attributes(clx) {
                Ok(a) => a,
                Err(e) => {
                    return Err(e);
                },
            };
            self.attributes = Some(parsed);
        }
        match &self.attributes {
            Some(a) => Ok(a),
            None => Err(Nd2Error::MetadataParse("Attributes are missing".to_string())),
        }
    }

    /// The loops of the experiment, outermost first, decoded on the
    /// first call. A file without an experiment chunk has none.
    ///
    /// Fails where the experiment chunk cannot be read or decoded, or
    /// does not spell an object; never because the chunk is missing.
    pub fn experiment(&mut self) -> (outcome: Result<&Vec<ExpLoop>, Nd2Error>)
        ensures
            final(self).same_file(old(self)),
            match outcome {
                Ok(loops) => {
                    &&& old(self).experiment_outcome() == Ok::<Seq<LoopModel>, Fault>(
                        loops_view(loops@),
                    )
                    &&& all_run(loops_view(loops@))
                },
                Err(e) => {
                    &&& old(self).experiment_outcome() == Err::<Seq<LoopModel>, Fault>(e@)
                    &&& !(e@ is ChunkNotFound)
                },
            },
    {
        proof {
            use_type_invariant(&*self);
        }
        if self.experiment.is_none() {
            let listed = if self.version.0 >= 3 {
                self.chunkmap.contains_key(EXPERIMENT_CHUNK_V3.as_slice())
            } else {
                self.chunkmap.contains_key(EXPERIMENT_CHUNK_V2.as_slice())
            };
            if !listed {
                let none: Vec<ExpLoop> = Vec::new();
                assert(loops_view(none@) =~= Seq::<LoopModel>::empty());
                self.experiment = Some(none);
            } else {
                let clx = if self.version.0 >= 3 {
                    self.read_tree(EXPERIMENT_CHUNK_V3.as_slice())
                } else {
                    self.read_tree(EXPERIMENT_CHUNK_V2.as_slice())
                };
                let clx = match clx {
                    Ok(c) => c,
                    Err(e) => {
                        return Err(e);
                    },
                };
                let parsed = match parse_experiment(clx) {
                    Ok(l) => l,
                    Err(e) => {
                        return Err(e);
                    },
                };
                self.experiment = Some(parsed);
            }
        }
        proof {
            match old(self).experiment_outcome() {
                Ok(loops) => {
                    if old(self).directory().dom().contains(
                        experiment_chunk(old(self).spec_version()),
                    ) {
                        lemma_loops_run(
                            chunk_tree(
                                old(self).source(),
                                old(self).directory(),
                                experiment_chunk(old(self).spec_version()),
                            ).unwrap(),
                        );
                    }
                },
                Err(_) => {},
            }
        }
        match &self.experiment {
            Some(l) => Ok(l),
            None => Err(Nd2Error::MetadataParse("Experiment is missing".to_string())),
        }
    }

    /// The text info of the file, decoded on the first call. A file
    /// without a text-info chunk has empty text info.
    ///
    /// Fails where the text-info chunk cannot be read or decoded; never
    /// because the chunk is missing.
    pub fn text_info(&mut self) -> (outcome: Result<&TextInfo, Nd2Error>)
        ensures
            final(self).same_file(old(self)),
            match outcome {
                Ok(info) => old(self).text_tree_outcome() matches Ok(tree) && is_text_info(
                    tree,
                    *info,
                ),
                Err(e) => {
                    &&& old(self).text_tree_outcome() == Err::<Option<ClxTree>, Fault>(e@)
                    &&& !(e@ is ChunkNotFound)
                },
            },
    {
        proof {
            use_type_invariant(&*self);
        }
        if self.text_info.is_none() {
            let listed = if self.version.0 >= 3 {
                self.chunkmap.contains_key(TEXT_INFO_CHUNK_V3.as_slice())
            } else {
                self.chunkmap.contains_key(TEXT_INFO_CHUNK_V2.as_slice())
            };
            if !listed {
                self.text_info = Some(TextInfo::default());
            } else {
                let clx = if self.version.0 >= 3 {
                    self.read_tree(TEXT_INFO_CHUNK_V3.as_slice())
                } else {
                    self.read_tree(TEXT_INFO_CHUNK_V2.as_slice())
                };
                let clx = match clx {
                    Ok(c) => c,
                    Err(e) => {
                        return Err(e);
                    },
                };
                let parsed = match parse_text_info(clx) {
                    Ok(i) => i,
                    Err(e) => {
                        return Err(e);
                    },
                };
                self.text_info = Some(parsed);
            }
        }
        match &self.text_info {
            Some(i) => Ok(i),
            None => Err(Nd2Error::MetadataParse("Text info is missing".to_string())),
        }
    }

    /// The names of all chunks of the file, in the order of the
    /// directory, each decoded as UTF-8 with invalid bytes replaced.
    pub fn chunk_names(&self) -> (names: Vec<String>)
        ensures
            names@.len() == self.chunk_list().len(),
            forall|i: int|
                0 <= i < names@.len() ==> (#[trigger] names@[i])@ == utf8_lossy(
                    self.chunk_list()[i],
                ),
            self.chunk_list().no_duplicates(),
            forall|name: Seq<u8>| #[trigger]
                self.directory().dom().contains(name) <==> self.chunk_list().contains(name),
    {
        let mut names: Vec<String> = Vec::new();
        let mut i: usize = 0;
        let count = self.chunkmap.len();
        while i < self.chunkmap.len()
            invariant
                i <= self.chunkmap.names().len(),
                names@.len() == i,
                forall|k: int|
                    0 <= k < i ==> (#[trigger] names@[k])@ == utf8_lossy(self.chunkmap.names()[k]),
            decreases self.chunkmap.names().len() - i,
        {
            names.push(lossy_text(self.chunkmap.name_at(i).as_slice()));
            i += 1;
        }
        names
    }

    /// The data of the chunk named `name`, as it lies in the file.
    ///
    /// Fails with a not-found error that carries the name as text
    /// where the directory does not list the name, and else as
    /// `read_chunk` does.
    pub fn read_raw_chunk(&self, name: &[u8]) -> (outcome: Result<Vec<u8>, Nd2Error>)
        ensures
            match outcome {
                Ok(bytes) => chunk_bytes(self.source(), self.directory(), name@) == Ok::<
                    Seq<u8>,
                    Fault,
                >(bytes@),
                Err(e) => {
                    &&& chunk_bytes(self.source(), self.directory(), name@) == Err::<
                        Seq<u8>,
                        Fault,
                    >(e@)
                    &&& names_missing_chunk(e, name@)
                },
            },
    {
        read_chunk(self.data.as_slice(), &self.chunkmap, name)
    }

    /// The sizes of the axes of the file, or why they cannot be had:
    /// the attributes or the experiment cannot, or the frames are more
    /// than the machine can count.
    pub open spec fn sizes_outcome(&self) -> Result<Sizes, Fault> {
        match self.attributes_outcome() {
            Err(f) => Err(f),
            Ok(attributes) => match self.experiment_outcome() {
                Err(f) => Err(f),
                Ok(loops) => layout_sizes(attributes, loops),
            },
        }
    }

    /// The axes of the file: their sizes and their order.
    pub fn layout(&mut self) -> (outcome: Result<AxisLayout, Nd2Error>)
        ensures
            final(self).same_file(old(self)),
            match outcome {
                Ok(layout) => {
                    &&& layout.well_formed()
                    &&& old(self).sizes_outcome() == Ok::<Sizes, Fault>(layout.sizes)
                    &&& old(self).experiment_outcome() matches Ok(loops)
                    &&& layout.axis_order@ == axis_order_of(loops)
                },
                Err(e) => {
                    &&& old(self).sizes_outcome() == Err::<Sizes, Fault>(e@)
                    &&& names_missing_chunk(e, attributes_chunk(old(self).spec_version()))
                },
            },
    {
        let attributes: Attributes = match self.attributes() {
            Ok(a) => *a,
            Err(e) => {
                return Err(e);
            },
        };
        let experiment = match self.experiment() {
            Ok(l) => l,
            Err(e) => {
                return Err(e);
            },
        };
        resolve_axes(&attributes, experiment)
    }

    /// The sizes of the six axes P, T, C, Z, Y and X.
    pub fn sizes(&mut self) -> (outcome: Result<Sizes, Nd2Error>)
        ensures
            final(self).same_file(old(self)),
            match outcome {
                Ok(sizes) => old(self).sizes_outcome() == Ok::<Sizes, Fault>(sizes),
                Err(e) => {
                    &&& old(self).sizes_outcome() == Err::<Sizes, Fault>(e@)
                    &&& names_missing_chunk(e, attributes_chunk(old(self).spec_version()))
                },
            },
    {
        match self.layout() {
            Ok(layout) => Ok(layout.sizes),
            Err(e) => Err(e),
        }
    }

    /// The coordinates of every frame, by sequence index: as many as P
    /// times T times C times Z, and entry `s` is the frame whose
    /// sequence index is `s`.
    pub fn loop_indices(&mut self) -> (outcome: Result<Vec<FrameIndex>, Nd2Error>)
        ensures
            final(self).same_file(old(self)),
            match outcome {
                Ok(indices) => {
                    &&& old(self).sizes_outcome() matches Ok(sizes)
                    &&& old(self).attributes_outcome() matches Ok(attributes)
                    &&& old(self).experiment_outcome() matches Ok(loops)
                    &&& indices@.len() == sizes.frame_count()
                    &&& forall|s: int|
                        0 <= s < indices@.len() ==> is_frame(sizes, #[trigger] indices@[s])
                            && sequence_index(attributes, loops, indices@[s]) == s
                },
                Err(e) => {
                    &&& old(self).sizes_outcome() == Err::<Sizes, Fault>(e@)
                    &&& names_missing_chunk(e, attributes_chunk(old(self).spec_version()))
                },
            },
    {
        let layout = match self.layout() {
            Ok(l) => l,
            Err(e) => {
                return Err(e);
            },
        };
        let indices = layout.loop_indices();
        proof {
            assert forall|s: int| 0 <= s < indices@.len() implies is_frame(
                layout.sizes,
                #[trigger] indices@[s],
            ) by {
                crate::axes::lemma_sequence_round_trip(layout, s as nat);
            }
        }
        Ok(indices)
    }

    /// The frame with sequence index `seq`, or why it cannot be had.
    ///
    /// The sequence index must lie below the number of frames. The
    /// frame is the content of the chunk `ImageDataSeq|seq!`, decoded.
    pub open spec fn frame_outcome(&self, seq: nat) -> Result<Seq<u16>, Fault> {
        match self.sizes_outcome() {
            Err(f) => Err(f),
            Ok(sizes) => if seq >= sizes.frame_count() {
                Err(Fault::InvalidFormat)
            } else {
                match chunk_bytes(self.source(), self.directory(), frame_chunk_name(seq)) {
                    Err(f) => Err(f),
                    Ok(raw) => decoded_frame(raw, self.attributes_outcome().unwrap()),
                }
            },
        }
    }

    /// Reads the frame with sequence index `seq` as planar samples:
    /// plane after plane, each row by row.
    ///
    /// Fails with an invalid-format error where `seq` is not below the
    /// number of frames, and else as reading the chunk and decoding the
    /// frame do. The error for a missing chunk carries the name of the
    /// chunk that is missing: that of the frame, or that of the
    /// attributes where those cannot be had.
    pub fn read_frame(&mut self, seq: usize) -> (outcome: Result<Vec<u16>, Nd2Error>)
        ensures
            final(self).same_file(old(self)),
            match outcome {
                Ok(frame) => {
                    &&& old(self).frame_outcome(seq as nat) == Ok::<Seq<u16>, Fault>(frame@)
                    &&& old(self).attributes_outcome() matches Ok(attributes)
                    &&& frame@.len() == frame_samples(attributes)
                },
                Err(e) => {
                    &&& old(self).frame_outcome(seq as nat) == Err::<Seq<u16>, Fault>(e@)
                    &&& names_missing_chunk(
                        e,
                        if old(self).sizes_outcome() is Ok {
                            frame_chunk_name(seq as nat)
                        } else {
                            attributes_chunk(old(self).spec_version())
                        },
                    )
                },
            },
    {
        let layout = match self.layout() {
            Ok(l) => l,
            Err(e) => {
                return Err(e);
            },
        };
        if seq >= layout.frame_count() {
            return Err(Nd2Error::InvalidFormat("Frame index out of range".to_string()));
        }
        let attributes: Attributes = match self.attributes() {
            Ok(a) => *a,
            Err(e) => {
                return Err(e);
            },
        };
        let name = chunk_name_of_frame(seq);
        let raw = match self.read_raw_chunk(name.as_slice()) {
            Ok(r) => r,
            Err(e) => {
                return Err(e);
            },
        };
        decode_frame(raw, &attributes)
    }

    /// One plane of one frame, or why it cannot be had.
    ///
    /// The coordinates must name a frame. The plane is plane `c` of the
    /// frame with the sequence index of the coordinates.
    pub open spec fn plane_outcome(&self, index: FrameIndex) -> Result<Seq<u16>, Fault> {
        match self.sizes_outcome() {
            Err(f) => Err(f),
            Ok(sizes) => if !is_frame(sizes, index) {
                Err(Fault::InvalidFormat)
            } else {
                let attributes = self.attributes_outcome().unwrap();
                let loops = self.experiment_outcome().unwrap();
                match self.frame_outcome(sequence_index(attributes, loops, index)) {
                    Err(f) => Err(f),
                    Ok(frame) => if (index.c + 1) * plane_pixels(attributes) > frame.len() {
                        Err(Fault::InvalidFormat)
                    } else {
                        Ok(plane_of(frame, plane_pixels(attributes), index.c as nat))
                    },
                }
            },
        }
    }

    /// Reads the plane of channel `c` of the frame at position `p`, time
    /// point `t` and focal plane `z`: height times width samples, row by
    /// row.
    ///
    /// Fails with an invalid-format error where the coordinates name no
    /// frame or the frame has no plane `c`, and else as `read_frame`
    /// does.
    pub fn read_frame_2d(&mut self, p: usize, t: usize, c: usize, z: usize) -> (outcome: Result<
        Vec<u16>,
        Nd2Error,
    >)
        ensures
            final(self).same_file(old(self)),
            match outcome {
                Ok(plane) => {
                    &&& old(self).plane_outcome(FrameIndex { p, t, c, z }) == Ok::<Seq<u16>, Fault>(
                        plane@,
                    )
                    &&& old(self).attributes_outcome() matches Ok(attributes)
                    &&& plane@.len() == plane_pixels(attributes)
                },
                Err(e) => {
                    &&& old(self).plane_outcome(FrameIndex { p, t, c, z }) == Err::<
                        Seq<u16>,
                        Fault,
                    >(e@)
                    &&& names_missing_chunk(
                        e,
                        if old(self).sizes_outcome() is Ok {
                            frame_chunk_name(
                                sequence_index(
                                    old(self).attributes_outcome().unwrap(),
                                    old(self).experiment_outcome().unwrap(),
                                    FrameIndex { p, t, c, z },
                                ),
                            )
                        } else {
                            attributes_chunk(old(self).spec_version())
                        },
                    )
                },
            },
    {
        let layout = match self.layout() {
            Ok(l) => l,
            Err(e) => {
                return Err(e);
            },
        };
        let index = FrameIndex { p, t, c, z };
        let seq = match layout.seq_of(&index) {
            Some(s) => s,
            None => {
                return Err(Nd2Error::InvalidFormat("Frame coordinates out of range".to_string()));
            },
        };
        let frame = match self.read_frame(seq) {
            Ok(f) => f,
            Err(e) => {
                return Err(e);
            },
        };
        let attributes: Attributes = match self.attributes() {
            Ok(a) => *a,
            Err(e) => {
                return Err(e);
            },
        };
        let pixels = match frame_geometry(&attributes) {
            Some(g) => g.pixels,
            None => {
                return Err(Nd2Error::InvalidFormat("Frame too large".to_string()));
            },
        };
        match take_plane(&frame, pixels, c) {
            Some(plane) => Ok(plane),
            None => Err(Nd2Error::InvalidFormat("Frame has no such plane".to_string())),
        }
    }
}

} // verus!
