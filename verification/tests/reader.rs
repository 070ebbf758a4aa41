//! The reader on files built in memory.

use flate2::write::ZlibEncoder;
use flate2::Compression;
use nd2_rs::axes::{Axis, FrameIndex};
use nd2_rs::chunk::header::ChunkHeader;
use nd2_rs::chunk::map::{read_chunk, read_chunkmap, ChunkMap};
use nd2_rs::reader::{read_version, Nd2File};
use nd2_rs::types::attributes::{CompressionType, PixelDataType};
use nd2_rs::types::experiment::ExpLoop;
use nd2_rs::types::number::Number;
use nd2_rs::{Fault, Nd2Error};
use std::io::Write;

const MAGIC: [u8; 4] = [0xDA, 0xCE, 0xBE, 0x0A];

fn utf16(text: &str) -> Vec<u8> {
    let mut out = Vec::new();
    for unit in text.encode_utf16() {
        out.extend_from_slice(&unit.to_le_bytes());
    }
    out
}

fn header(data_type: u8, name: &str) -> Vec<u8> {
    let units = name.encode_utf16().count() + 1;
    let mut out = vec![data_type, units as u8];
    out.extend(utf16(name));
    out.extend_from_slice(&[0, 0]);
    out
}

fn record(data_type: u8, name: &str, payload: &[u8]) -> Vec<u8> {
    let mut out = header(data_type, name);
    out.extend_from_slice(payload);
    out
}

fn uint(name: &str, value: u32) -> Vec<u8> {
    record(3, name, &value.to_le_bytes())
}

fn double(name: &str, value: f64) -> Vec<u8> {
    record(6, name, &value.to_le_bytes())
}

fn text(name: &str, value: &str) -> Vec<u8> {
    let mut payload = utf16(value);
    payload.extend_from_slice(&[0, 0]);
    record(8, name, &payload)
}

fn level(name: &str, items: &[Vec<u8>]) -> Vec<u8> {
    let mut body = Vec::new();
    for item in items {
        body.extend_from_slice(item);
    }
    let mut out = header(11, name);
    out.extend_from_slice(&(items.len() as u32).to_le_bytes());
    out.extend_from_slice(&(body.len() as u64).to_le_bytes());
    out.extend(body);
    for _ in items {
        out.extend_from_slice(&0u64.to_le_bytes());
    }
    out
}

fn zlib(bytes: &[u8]) -> Vec<u8> {
    let mut encoder = ZlibEncoder::new(Vec::new(), Compression::default());
    encoder.write_all(bytes).unwrap();
    encoder.finish().unwrap()
}

fn file_header(version: &str) -> Vec<u8> {
    let mut out = MAGIC.to_vec();
    out.extend_from_slice(&32u32.to_le_bytes());
    out.extend_from_slice(&64u64.to_le_bytes());
    out.extend_from_slice(b"ND2 FILE SIGNATURE CHUNK NAME01!");
    let mut payload = version.as_bytes().to_vec();
    payload.resize(64, 0);
    out.extend(payload);
    out
}

/// A whole file: the header, the chunks, and the directory with its
/// trailer.
fn build_file(version: &str, chunks: &[(&[u8], Vec<u8>)]) -> Vec<u8> {
    let mut file = file_header(version);
    let mut entries = Vec::new();
    for (name, data) in chunks {
        let offset = file.len() as u64;
        file.extend_from_slice(&MAGIC);
        file.extend_from_slice(&(name.len() as u32).to_le_bytes());
        file.extend_from_slice(&(data.len() as u64).to_le_bytes());
        file.extend_from_slice(name);
        file.extend_from_slice(data);
        entries.extend_from_slice(name);
        entries.extend_from_slice(&offset.to_le_bytes());
        entries.extend_from_slice(&(data.len() as u64).to_le_bytes());
    }
    let map_offset = file.len() as u64;
    entries.extend_from_slice(b"ND2 CHUNK MAP SIGNATURE 0000001!");
    entries.extend_from_slice(&map_offset.to_le_bytes());
    file.extend_from_slice(&MAGIC);
    file.extend_from_slice(&32u32.to_le_bytes());
    file.extend_from_slice(&(entries.len() as u64).to_le_bytes());
    file.extend_from_slice(b"ND2 FILEMAP SIGNATURE NAME 0001!");
    file.extend(entries);
    file
}

fn attributes_chunk(width: u32, height: u32, components: u32, frames: u32) -> Vec<u8> {
    level(
        "SLxImageAttributes",
        &[
            uint("uiWidth", width),
            uint("uiWidthBytes", width * 2 * components),
            uint("uiHeight", height),
            uint("uiComp", components),
            uint("uiBpcInMemory", 16),
            uint("uiBpcSignificant", 12),
            uint("uiSequenceCount", frames),
            uint("uiCompBPC", 1),
            text("eCompression", "none"),
        ],
    )
}

fn point(x: f64, y: f64) -> Vec<u8> {
    level("", &[double("dPosX", x), double("dPosY", y), double("dPosZ", 1.0)])
}

/// Two positions outside, three time points inside.
fn experiment_chunk() -> Vec<u8> {
    let time = level(
        "",
        &[
            uint("eType", 1),
            uint("uiNestingLevel", 1),
            level(
                "uLoopPars",
                &[
                    uint("uiCount", 3),
                    double("dStart", 0.0),
                    double("dPeriod", 100.0),
                    double("dDuration", 500.0),
                ],
            ),
        ],
    );
    level(
        "SLxExperiment",
        &[
            uint("eType", 2),
            uint("uiNestingLevel", 0),
            level(
                "uLoopPars",
                &[uint("uiCount", 2), level("Points", &[point(1.0, 2.0), point(3.0, 4.0)])],
            ),
            level("ppNextLevelEx", &[time]),
        ],
    )
}

fn text_info_chunk() -> Vec<u8> {
    level(
        "SLxImageTextInfo",
        &[text("TextInfoItem_5", "ignored"), text("Author", "someone")],
    )
}

fn samples(values: &[u16]) -> Vec<u8> {
    let mut out = Vec::new();
    for v in values {
        out.extend_from_slice(&v.to_le_bytes());
    }
    out
}

/// Frame `n` of a 3 by 2 picture: sample `i` is `100 n + i`.
fn frame_values(n: usize) -> Vec<u16> {
    (0..6).map(|i| (100 * n + i) as u16).collect()
}

fn fixture_bytes() -> Vec<u8> {
    let mut chunks: Vec<(Vec<u8>, Vec<u8>)> = vec![
        (b"ImageAttributesLV!".to_vec(), attributes_chunk(3, 2, 1, 6)),
        (b"ImageMetadataLV!".to_vec(), experiment_chunk()),
        (b"ImageTextInfoLV!".to_vec(), text_info_chunk()),
    ];
    for n in 0..6 {
        let name = format!("ImageDataSeq|{}!", n).into_bytes();
        chunks.push((name, samples(&frame_values(n))));
    }
    let borrowed: Vec<(&[u8], Vec<u8>)> =
        chunks.iter().map(|(n, d)| (n.as_slice(), d.clone())).collect();
    build_file("Ver3.0", &borrowed)
}

fn require_fixture() -> Option<Nd2File> {
    Nd2File::open(fixture_bytes()).ok()
}

#[test]
fn test_version() -> Result<(), Nd2Error> {
    let nd2 = match require_fixture() {
        Some(x) => x,
        None => panic!("the fixture must open"),
    };
    let v = nd2.version();
    assert!(v.0 >= 2 && v.0 <= 3, "expected modern ND2 version 2.x or 3.x, got {}.{}", v.0, v.1);
    assert_eq!(v, (3, 0));
    Ok(())
}

#[test]
fn test_attributes() -> Result<(), Nd2Error> {
    let mut nd2 = require_fixture().unwrap();
    let attrs = nd2.attributes()?;
    assert!(attrs.height_px > 0, "height_px must be positive");
    assert!(attrs.component_count > 0, "component_count must be positive");
    assert!(attrs.sequence_count > 0, "sequence_count must be positive");
    assert!(attrs.bits_per_component_in_memory > 0, "bits_per_component_in_memory must be positive");
    assert_eq!(attrs.width_px, Some(3));
    assert_eq!(attrs.height_px, 2);
    assert_eq!(attrs.pixel_data_type, PixelDataType::Unsigned);
    assert_eq!(attrs.compression_type, Some(CompressionType::Uncompressed));
    Ok(())
}

#[test]
fn test_text_info() -> Result<(), Nd2Error> {
    let mut nd2 = require_fixture().unwrap();
    let info = nd2.text_info()?;
    assert_eq!(info.author, None);
    Ok(())
}

#[test]
fn test_experiment() -> Result<(), Nd2Error> {
    let mut nd2 = require_fixture().unwrap();
    let loops = nd2.experiment()?;
    assert_eq!(loops.len(), 2);
    match &loops[0] {
        ExpLoop::XYPosLoop(l) => {
            assert_eq!(l.count, 2);
            assert_eq!(l.nesting_level, 0);
            assert_eq!(l.parameters.points.len(), 2);
            assert_eq!(l.parameters.points[1].stage_position_um.x, Number::Float(3.0f64.to_bits()));
            assert_eq!(l.parameters.points[1].stage_position_um.y, Number::Float(4.0f64.to_bits()));
            assert_eq!(l.parameters.points[1].stage_position_um.z, Number::Float(0));
        }
        other => panic!("expected a position loop, got {:?}", other),
    }
    match &loops[1] {
        ExpLoop::TimeLoop(l) => {
            assert_eq!(l.count, 3);
            assert_eq!(l.nesting_level, 1);
            assert_eq!(l.parameters.period_ms, Number::Float(100.0f64.to_bits()));
        }
        other => panic!("expected a time loop, got {:?}", other),
    }
    Ok(())
}

#[test]
fn test_sizes() -> Result<(), Nd2Error> {
    let mut nd2 = require_fixture().unwrap();
    let sizes = nd2.sizes()?;
    assert!(sizes.contains_key("Y"), "sizes must have Y");
    assert!(sizes.contains_key("X"), "sizes must have X");
    let y = sizes.get("Y").unwrap();
    let x = sizes.get("X").unwrap();
    assert!(y > 0 && x > 0, "Y and X must be positive");
    let total: usize = sizes.get("P").unwrap_or(1)
        * sizes.get("T").unwrap_or(1)
        * sizes.get("C").unwrap_or(1)
        * sizes.get("Z").unwrap_or(1);
    assert!(total > 0, "product of P*T*C*Z must be positive");
    for key in ["P", "T", "C", "Z", "Y", "X"] {
        assert!(sizes.contains_key(key));
    }
    assert!(!sizes.contains_key("Q"));
    assert_eq!((sizes.p, sizes.t, sizes.c, sizes.z, sizes.y, sizes.x), (2, 3, 1, 1, 2, 3));
    Ok(())
}

#[test]
fn test_loop_indices() -> Result<(), Nd2Error> {
    let mut nd2 = require_fixture().unwrap();
    let sizes = nd2.sizes()?;
    let n_pos = sizes.get("P").unwrap_or(1);
    let n_time = sizes.get("T").unwrap_or(1);
    let n_chan = sizes.get("C").unwrap_or(1);
    let n_z = sizes.get("Z").unwrap_or(1);
    let expected_len = n_pos * n_time * n_chan * n_z;

    let loop_indices = nd2.loop_indices()?;
    assert_eq!(
        loop_indices.len(),
        expected_len,
        "loop_indices length should match sizes product P*T*C*Z"
    );

    for (seq, m) in loop_indices.iter().enumerate() {
        let p = m.get("P").unwrap_or(0);
        let t = m.get("T").unwrap_or(0);
        let c = m.get("C").unwrap_or(0);
        let z = m.get("Z").unwrap_or(0);
        let reconstructed = p * n_time * n_chan * n_z + t * n_chan * n_z + c * n_z + z;
        assert_eq!(
            reconstructed, seq,
            "loop_indices[{}] P={} T={} C={} Z={} should reconstruct to seq {}",
            seq, p, t, c, z, seq
        );
    }
    assert_eq!(loop_indices[4], FrameIndex { p: 1, t: 1, c: 0, z: 0 });
    Ok(())
}

#[test]
fn test_chunk_names() -> Result<(), Nd2Error> {
    let nd2 = require_fixture().unwrap();
    let chunks = nd2.chunk_names();
    assert!(!chunks.is_empty(), "chunk list must not be empty");
    assert!(
        chunks.iter().any(|c| c.starts_with("ImageDataSeq|")),
        "expected ImageDataSeq| chunks"
    );
    assert_eq!(chunks.len(), 9);
    assert_eq!(chunks[0], "ImageAttributesLV!");
    Ok(())
}

#[test]
fn test_read_frame_0() -> Result<(), Nd2Error> {
    let mut nd2 = require_fixture().unwrap();
    let attrs = nd2.attributes()?;
    let h = attrs.height_px as usize;
    let w = attrs.width_px.unwrap_or(0) as usize;
    let n_comp = attrs.component_count as usize;
    let expected_pixels = h * w * n_comp;

    let pixels = nd2.read_frame(0)?;
    assert_eq!(
        pixels.len(),
        expected_pixels,
        "read_frame(0) must return exactly h*w*components = {} pixels",
        expected_pixels
    );
    assert_eq!(pixels, frame_values(0));
    Ok(())
}

#[test]
fn test_read_frame_yx_shape() -> Result<(), Nd2Error> {
    let mut nd2 = require_fixture().unwrap();
    let sizes = nd2.sizes()?;
    let h = sizes.get("Y").unwrap();
    let w = sizes.get("X").unwrap();
    let n_c = sizes.get("C").unwrap_or(1);
    let n_z = sizes.get("Z").unwrap_or(1);
    let total_frames = sizes.get("P").unwrap_or(1) * sizes.get("T").unwrap_or(1) * n_c * n_z;

    let pixels = nd2.read_frame(0)?;
    let expected = h * w * n_c;
    assert_eq!(pixels.len(), expected, "frame 0 should be Y*X*C = {} px", expected);

    if total_frames > 1 {
        let last = total_frames - 1;
        let pixels_last = nd2.read_frame(last)?;
        assert_eq!(pixels_last.len(), expected, "frame {} should match shape", last);
    }
    Ok(())
}

#[test]
fn test_read_frame_last() -> Result<(), Nd2Error> {
    let mut nd2 = require_fixture().unwrap();
    let loop_indices = nd2.loop_indices()?;
    if loop_indices.is_empty() {
        panic!("the fixture has frames");
    }
    let last_idx = loop_indices.len() - 1;
    let pixels = nd2.read_frame(last_idx)?;
    assert!(!pixels.is_empty(), "read_frame(last) must return non-empty");
    assert_eq!(pixels, frame_values(5));
    Ok(())
}

#[test]
fn test_read_frame_out_of_range() -> Result<(), Nd2Error> {
    let mut nd2 = require_fixture().unwrap();
    let loop_indices = nd2.loop_indices()?;
    let bad_idx = loop_indices.len() + 100;
    let res = nd2.read_frame(bad_idx);
    assert!(res.is_err(), "read_frame out of range must error");
    let first_bad = nd2.read_frame(loop_indices.len());
    assert!(matches!(first_bad, Err(Nd2Error::InvalidFormat(_))));
    Ok(())
}

#[test]
fn test_open_invalid_file_fails() {
    let res = Nd2File::open(vec![0u8; 200]);
    assert!(res.is_err());
    assert!(matches!(res, Err(Nd2Error::InvalidMagic { expected: 0x0ABE_CEDA, actual: 0 })));
}

#[test]
fn open_of_a_short_source_is_an_io_error() {
    assert!(matches!(Nd2File::open(Vec::new()), Err(Nd2Error::Io(_))));
    assert!(matches!(Nd2File::open(vec![0xDA; 111]), Err(Nd2Error::Io(_))));
}

#[test]
fn version_is_read_from_the_header() {
    assert_eq!(read_version(&file_header("Ver3.0")).unwrap(), (3, 0));
    assert_eq!(read_version(&file_header("Ver2.1")).unwrap(), (2, 1));
    assert_eq!(read_version(&file_header("VerX.Y")).unwrap(), (0, 0));
    assert_eq!(Nd2File::open(build_file("Ver2.1", &[])).unwrap().version(), (2, 1));
}

#[test]
fn legacy_magic_is_an_unsupported_version() {
    let mut data = vec![0x00, 0x00, 0x00, 0x0C];
    data.resize(200, 0);
    assert_eq!(read_version(&data).unwrap(), (1, 0));
    assert!(matches!(
        Nd2File::open(data),
        Err(Nd2Error::UnsupportedVersion { major: 1, minor: 0 })
    ));
}

#[test]
fn other_versions_are_unsupported() {
    for (text, major, minor) in [("Ver4.0", 4, 0), ("Ver1.5", 1, 5), ("Ver0.0", 0, 0)] {
        match Nd2File::open(build_file(text, &[])) {
            Err(Nd2Error::UnsupportedVersion { major: a, minor: b }) => {
                assert_eq!((a, b), (major, minor))
            }
            other => panic!("expected an unsupported version, got {:?}", other.map(|_| ())),
        }
    }
}

#[test]
fn wrong_magic_is_reported_with_both_values() {
    let mut data = vec![0xDE, 0xAD, 0xBE, 0xEF];
    data.resize(200, 0);
    match Nd2File::open(data) {
        Err(Nd2Error::InvalidMagic { expected, actual }) => {
            assert_eq!(expected, 0x0ABE_CEDA);
            assert_eq!(actual, 0xEFBE_ADDE);
        }
        other => panic!("expected an invalid magic, got {:?}", other.map(|_| ())),
    }
}

#[test]
fn corrupt_header_lengths_and_signature_are_invalid_format() {
    let mut data = build_file("Ver3.0", &[]);
    data[4] = 31;
    assert!(matches!(read_version(&data), Err(Nd2Error::InvalidFormat(_))));
    let mut data = build_file("Ver3.0", &[]);
    data[8] = 63;
    assert!(matches!(read_version(&data), Err(Nd2Error::InvalidFormat(_))));
    let mut data = build_file("Ver3.0", &[]);
    data[20] = b'x';
    assert!(matches!(read_version(&data), Err(Nd2Error::InvalidFormat(_))));
}

#[test]
fn wrong_trailer_is_an_invalid_chunkmap_signature() {
    let mut data = fixture_bytes();
    let at = data.len() - 40;
    data[at] = b'X';
    assert!(matches!(Nd2File::open(data), Err(Nd2Error::InvalidChunkmapSignature)));
}

#[test]
fn smallest_file_is_two_hundred_bytes_and_opens() {
    let data = build_file("Ver3.0", &[]);
    assert_eq!(data.len(), 200);
    let nd2 = Nd2File::open(data).unwrap();
    assert!(nd2.chunk_names().is_empty());
}

#[test]
fn directory_chunk_must_have_magic_and_name() {
    let good = fixture_bytes();
    let offset_at = good.len() - 8;
    let map_offset = u64::from_le_bytes(good[offset_at..].try_into().unwrap()) as usize;
    let mut data = good.clone();
    data[map_offset] = 0;
    match read_chunkmap(&data) {
        Err(Nd2Error::InvalidMagic { expected, actual }) => {
            assert_eq!(expected, 0x0ABE_CEDA);
            assert_eq!(actual, 0x0ABE_CE00);
        }
        other => panic!("expected an invalid magic, got {:?}", other.map(|_| ())),
    }
    let mut data = good.clone();
    data[map_offset + 16] = b'X';
    assert!(matches!(read_chunkmap(&data), Err(Nd2Error::InvalidFormat(_))));
    let mut data = good.clone();
    data[map_offset + 4] = 16;
    assert!(matches!(read_chunkmap(&data), Err(Nd2Error::InvalidFormat(_))));
    let mut data = good.clone();
    data[offset_at..].copy_from_slice(&(good.len() as u64 + 5).to_le_bytes());
    assert!(matches!(read_chunkmap(&data), Err(Nd2Error::Io(_))));
    let mut data = good;
    data[map_offset + 8..map_offset + 16].copy_from_slice(&u64::MAX.to_le_bytes());
    assert!(matches!(read_chunkmap(&data), Err(Nd2Error::Io(_))));
}

#[test]
fn directory_lists_offset_and_size_of_each_chunk() {
    let data = build_file("Ver3.0", &[(b"a!", vec![1, 2, 3]), (b"bb!", vec![4])]);
    let map = read_chunkmap(&data).unwrap();
    assert_eq!(map.len(), 2);
    assert_eq!(map.get(b"a!"), Some((112, 3)));
    assert_eq!(map.get(b"bb!"), Some((112 + 16 + 2 + 3, 1)));
    assert_eq!(map.get(b"a"), None);
    assert!(map.contains_key(b"bb!"));
    assert!(!map.contains_key(b"c!"));
    assert_eq!(map.name_at(1), &b"bb!".to_vec());
    assert_eq!(read_chunk(&data, &map, b"a!").unwrap(), vec![1, 2, 3]);
    assert_eq!(read_chunk(&data, &map, b"bb!").unwrap(), vec![4]);
}

#[test]
fn directory_that_ends_inside_an_entry_is_truncated() {
    // A directory chunk whose data holds one whole entry and the start of another.
    let mut file = file_header("Ver3.0");
    let map_offset = file.len() as u64;
    let mut entries = b"a!".to_vec();
    entries.extend_from_slice(&1u64.to_le_bytes());
    entries.extend_from_slice(&2u64.to_le_bytes());
    entries.extend_from_slice(b"partial");
    file.extend_from_slice(&MAGIC);
    file.extend_from_slice(&32u32.to_le_bytes());
    file.extend_from_slice(&(entries.len() as u64).to_le_bytes());
    file.extend_from_slice(b"ND2 FILEMAP SIGNATURE NAME 0001!");
    file.extend(entries);
    file.extend_from_slice(b"ND2 CHUNK MAP SIGNATURE 0000001!");
    file.extend_from_slice(&map_offset.to_le_bytes());
    assert!(matches!(read_chunkmap(&file), Err(Nd2Error::Io(_))));
}

#[test]
fn directory_without_terminator_ends_with_its_data() {
    let mut file = file_header("Ver3.0");
    let map_offset = file.len() as u64;
    let mut entries = b"a!".to_vec();
    entries.extend_from_slice(&1u64.to_le_bytes());
    entries.extend_from_slice(&2u64.to_le_bytes());
    file.extend_from_slice(&MAGIC);
    file.extend_from_slice(&32u32.to_le_bytes());
    file.extend_from_slice(&(entries.len() as u64).to_le_bytes());
    file.extend_from_slice(b"ND2 FILEMAP SIGNATURE NAME 0001!");
    file.extend(entries);
    file.extend_from_slice(b"ND2 CHUNK MAP SIGNATURE 0000001!");
    file.extend_from_slice(&map_offset.to_le_bytes());
    let map = read_chunkmap(&file).unwrap();
    assert_eq!(map.len(), 1);
    assert_eq!(map.get(b"a!"), Some((1, 2)));
}

#[test]
fn later_directory_entry_replaces_earlier_of_same_name() {
    let map = ChunkMap::new().insert(b"a!".to_vec(), 1, 2).insert(b"b!".to_vec(), 3, 4);
    let map = map.insert(b"a!".to_vec(), 5, 6);
    assert_eq!(map.len(), 2);
    assert_eq!(map.get(b"a!"), Some((5, 6)));
    assert_eq!(map.get(b"b!"), Some((3, 4)));
}

#[test]
fn chunk_header_is_sixteen_little_endian_bytes() {
    let mut bytes = vec![9u8];
    bytes.extend_from_slice(&MAGIC);
    bytes.extend_from_slice(&7u32.to_le_bytes());
    bytes.extend_from_slice(&0x0102_0304_0506_0708u64.to_le_bytes());
    let header = ChunkHeader::read(&bytes, 1).unwrap();
    assert_eq!(
        header,
        ChunkHeader { magic: 0x0ABE_CEDA, name_length: 7, data_length: 0x0102_0304_0506_0708 }
    );
    assert!(header.validate_magic().is_ok());
    assert!(matches!(ChunkHeader::read(&bytes, 2), Err(Nd2Error::Io(_))));
    assert!(matches!(ChunkHeader::read(&bytes, 100), Err(Nd2Error::Io(_))));
    let wrong = ChunkHeader { magic: 5, name_length: 0, data_length: 0 };
    assert!(matches!(
        wrong.validate_magic(),
        Err(Nd2Error::InvalidMagic { expected: 0x0ABE_CEDA, actual: 5 })
    ));
    assert_eq!(ChunkHeader::SIZE, 16);
}

#[test]
fn missing_chunk_is_not_found_with_its_name() {
    let nd2 = require_fixture().unwrap();
    match nd2.read_raw_chunk(b"Nothing!") {
        Err(Nd2Error::ChunkNotFound { name }) => assert_eq!(name, "Nothing!"),
        other => panic!("expected not found, got {:?}", other),
    }
    match nd2.read_raw_chunk(&[0xFF, b'!']) {
        Err(Nd2Error::ChunkNotFound { name }) => assert_eq!(name, "\u{FFFD}!"),
        other => panic!("expected not found, got {:?}", other),
    }
}

#[test]
fn chunk_that_reaches_past_the_end_is_an_io_error() {
    let data = build_file("Ver3.0", &[(b"a!", vec![1, 2, 3])]);
    let map = ChunkMap::new().insert(b"a!".to_vec(), 112, 10_000);
    assert!(matches!(read_chunk(&data, &map, b"a!"), Err(Nd2Error::Io(_))));
    let map = ChunkMap::new().insert(b"a!".to_vec(), u64::MAX, 1);
    assert!(matches!(read_chunk(&data, &map, b"a!"), Err(Nd2Error::Io(_))));
    let map = ChunkMap::new().insert(b"a!".to_vec(), 113, 1);
    assert!(matches!(read_chunk(&data, &map, b"a!"), Err(Nd2Error::InvalidMagic { .. })));
}

#[test]
fn missing_attributes_chunk_is_an_error_but_other_metadata_is_empty() {
    let mut nd2 = Nd2File::open(build_file("Ver3.0", &[])).unwrap();
    assert!(matches!(nd2.attributes(), Err(Nd2Error::ChunkNotFound { .. })));
    assert!(nd2.experiment().unwrap().is_empty());
    let info = nd2.text_info().unwrap();
    assert_eq!(info.author, None);
    assert_eq!(info.description, None);
    assert!(matches!(nd2.sizes(), Err(Nd2Error::ChunkNotFound { .. })));
    assert!(matches!(nd2.read_frame(0), Err(Nd2Error::ChunkNotFound { .. })));
}

#[test]
fn chunk_names_depend_on_the_version() {
    let chunks: Vec<(&[u8], Vec<u8>)> = vec![
        (b"ImageAttributes!", attributes_chunk(4, 1, 1, 1)),
        (b"ImageTextInfo!", level("SLxImageTextInfo", &[text("Author", "me")])),
        (b"ImageMetadata!", level("SLxExperiment", &[uint("eType", 7), uint("uiCount", 4)])),
    ];
    let mut v2 = Nd2File::open(build_file("Ver2.0", &chunks)).unwrap();
    assert_eq!(v2.attributes().unwrap().width_px, Some(4));
    assert_eq!(v2.experiment().unwrap().len(), 1);
    let mut v3 = Nd2File::open(build_file("Ver3.0", &chunks)).unwrap();
    assert!(matches!(v3.attributes(), Err(Nd2Error::ChunkNotFound { .. })));
    assert!(v3.experiment().unwrap().is_empty());
}

#[test]
fn text_info_reads_top_level_fields() {
    let chunks: Vec<(&[u8], Vec<u8>)> = vec![(
        b"ImageTextInfoLV!",
        text("Author", "someone"),
    )];
    let mut nd2 = Nd2File::open(build_file("Ver3.0", &chunks)).unwrap();
    let info = nd2.text_info().unwrap();
    assert_eq!(info.author.as_deref(), Some("someone"));
    assert_eq!(info.date, None);
}

#[test]
fn metadata_is_kept_after_the_first_call() {
    let mut nd2 = require_fixture().unwrap();
    let first = *nd2.attributes().unwrap();
    let second = *nd2.attributes().unwrap();
    assert_eq!(first, second);
    let loops = nd2.experiment().unwrap().clone();
    assert_eq!(&loops, nd2.experiment().unwrap());
}

#[test]
fn empty_experiment_falls_back_to_sequence_count() {
    let mut chunks: Vec<(Vec<u8>, Vec<u8>)> =
        vec![(b"ImageAttributesLV!".to_vec(), attributes_chunk(2, 1, 2, 8))];
    for n in 0..8 {
        chunks.push((format!("ImageDataSeq|{}!", n).into_bytes(), samples(&[1, 2, 3, 4])));
    }
    let borrowed: Vec<(&[u8], Vec<u8>)> =
        chunks.iter().map(|(n, d)| (n.as_slice(), d.clone())).collect();
    let mut nd2 = Nd2File::open(build_file("Ver3.0", &borrowed)).unwrap();
    let layout = nd2.layout().unwrap();
    assert_eq!(layout.axis_order, vec![Axis::P, Axis::T, Axis::C, Axis::Z]);
    assert_eq!(layout.coord_shape, vec![1, 4, 2, 1]);
    let sizes = nd2.sizes().unwrap();
    assert_eq!((sizes.p, sizes.t, sizes.c, sizes.z, sizes.y, sizes.x), (1, 4, 2, 1, 1, 2));
    let indices = nd2.loop_indices().unwrap();
    assert_eq!(indices.len(), 8);
    assert_eq!(indices[5], FrameIndex { p: 0, t: 2, c: 1, z: 0 });
    // Interleaved [1, 2, 3, 4] of two pixels and two planes is planar [1, 3, 2, 4].
    assert_eq!(nd2.read_frame(5).unwrap(), vec![1, 3, 2, 4]);
    assert_eq!(nd2.read_frame_2d(0, 2, 1, 0).unwrap(), vec![2, 4]);
    assert_eq!(nd2.read_frame_2d(0, 3, 0, 0).unwrap(), vec![1, 3]);
    assert!(matches!(nd2.read_frame_2d(0, 4, 0, 0), Err(Nd2Error::InvalidFormat(_))));
    assert!(matches!(nd2.read_frame_2d(1, 0, 0, 0), Err(Nd2Error::InvalidFormat(_))));
    assert!(matches!(nd2.read_frame_2d(0, 0, 2, 0), Err(Nd2Error::InvalidFormat(_))));
    assert!(matches!(nd2.read_frame(8), Err(Nd2Error::InvalidFormat(_))));
}

#[test]
fn plane_of_a_frame_is_the_matching_part_of_the_whole_frame() {
    let mut nd2 = require_fixture().unwrap();
    let indices = nd2.loop_indices().unwrap();
    for (seq, at) in indices.iter().enumerate() {
        let whole = nd2.read_frame(seq).unwrap();
        let plane = nd2.read_frame_2d(at.p, at.t, at.c, at.z).unwrap();
        assert_eq!(plane.len(), 6);
        // Channel 0 is the only plane: the first Y*X samples of the frame.
        assert_eq!(plane, whole[0..6].to_vec());
    }
}

#[test]
fn lossless_frames_are_inflated_behind_their_prefix() {
    let attributes = level(
        "SLxImageAttributes",
        &[
            uint("uiWidth", 3),
            uint("uiHeight", 2),
            uint("uiComp", 1),
            uint("uiBpcInMemory", 16),
            uint("uiBpcSignificant", 16),
            uint("uiSequenceCount", 1),
            text("eCompression", "lossless"),
            double("dCompressionParam", 0.5),
        ],
    );
    let mut frame = vec![0xAAu8; 8];
    frame.extend(zlib(&samples(&[10, 20, 30, 40, 50, 60])));
    let chunks: Vec<(&[u8], Vec<u8>)> =
        vec![(b"ImageAttributesLV!", attributes), (b"ImageDataSeq|0!", frame)];
    let mut nd2 = Nd2File::open(build_file("Ver3.0", &chunks)).unwrap();
    let attrs = *nd2.attributes().unwrap();
    assert_eq!(attrs.compression_type, Some(CompressionType::Lossless));
    assert_eq!(attrs.compression_level, Some(Number::Float(0.5f64.to_bits())));
    assert_eq!(nd2.read_frame(0).unwrap(), vec![10, 20, 30, 40, 50, 60]);
}

#[test]
fn frame_with_an_eight_byte_prefix_is_read_behind_it() {
    let mut frame = vec![0xEEu8; 8];
    frame.extend(samples(&[1, 2, 3, 4, 5, 6]));
    let chunks: Vec<(&[u8], Vec<u8>)> = vec![
        (b"ImageAttributesLV!", attributes_chunk(3, 2, 1, 1)),
        (b"ImageDataSeq|0!", frame),
    ];
    let mut nd2 = Nd2File::open(build_file("Ver3.0", &chunks)).unwrap();
    assert_eq!(nd2.read_frame(0).unwrap(), vec![1, 2, 3, 4, 5, 6]);
}

#[test]
fn frame_chunk_that_is_too_short_is_invalid_format() {
    let chunks: Vec<(&[u8], Vec<u8>)> = vec![
        (b"ImageAttributesLV!", attributes_chunk(3, 2, 1, 1)),
        (b"ImageDataSeq|0!", samples(&[1, 2, 3, 4, 5])),
    ];
    let mut nd2 = Nd2File::open(build_file("Ver3.0", &chunks)).unwrap();
    assert!(matches!(nd2.read_frame(0), Err(Nd2Error::InvalidFormat(_))));
}

#[test]
fn frame_chunk_that_is_longer_is_read_from_its_start() {
    let chunks: Vec<(&[u8], Vec<u8>)> = vec![
        (b"ImageAttributesLV!", attributes_chunk(3, 2, 1, 1)),
        (b"ImageDataSeq|0!", samples(&[1, 2, 3, 4, 5, 6, 7, 8, 9])),
    ];
    let mut nd2 = Nd2File::open(build_file("Ver3.0", &chunks)).unwrap();
    assert_eq!(nd2.read_frame(0).unwrap(), vec![1, 2, 3, 4, 5, 6]);
}

#[test]
fn directory_of_many_chunks_finds_each_of_them() {
    let mut map = ChunkMap::new();
    for n in 0..2000u64 {
        map = map.insert(format!("ImageDataSeq|{}!", n).into_bytes(), n * 10, n + 1);
    }
    assert_eq!(map.len(), 2000);
    for n in 0..2000u64 {
        let name = format!("ImageDataSeq|{}!", n).into_bytes();
        assert_eq!(map.get(&name), Some((n * 10, n + 1)));
        assert_eq!(map.name_at(n as usize), &name);
    }
    assert_eq!(map.get(b"ImageDataSeq|2000!"), None);
    let map = map.insert(b"ImageDataSeq|7!".to_vec(), 1, 2);
    assert_eq!(map.len(), 2000);
    assert_eq!(map.get(b"ImageDataSeq|7!"), Some((1, 2)));
    assert_eq!(map.get(b"ImageDataSeq|8!"), Some((80, 9)));
}

#[test]
fn errors_are_said_in_words() {
    let cases: Vec<(Nd2Error, &str)> = vec![
        (Nd2Error::Io("gone".to_string()), "IO error: gone"),
        (Nd2Error::InvalidFormat("bad".to_string()), "Invalid ND2 file: bad"),
        (
            Nd2Error::InvalidMagic { expected: 0x0ABE_CEDA, actual: 0xEFBE_ADDE },
            "Invalid magic number: expected 0x0ABECEDA, got 0xEFBEADDE",
        ),
        (
            Nd2Error::InvalidMagic { expected: 0, actual: 0x1F },
            "Invalid magic number: expected 0x00000000, got 0x0000001F",
        ),
        (Nd2Error::CorruptChunkHeader { position: 1234 }, "Corrupt chunk header at position 1234"),
        (
            Nd2Error::CorruptChunkHeader { position: u64::MAX },
            "Corrupt chunk header at position 18446744073709551615",
        ),
        (
            Nd2Error::ChunkNotFound { name: "A!".to_string() },
            "Chunk 'A!' not found in chunkmap",
        ),
        (Nd2Error::InvalidChunkmapSignature, "Invalid chunkmap signature"),
        (Nd2Error::ClxParse("cut".to_string()), "CLX parsing error: cut"),
        (Nd2Error::UnsupportedClxType(0), "Unsupported CLX data type: 0"),
        (Nd2Error::UnsupportedClxType(200), "Unsupported CLX data type: 200"),
        (Nd2Error::Decompression("zlib".to_string()), "Decompression error: zlib"),
        (Nd2Error::Utf16Decode("lone".to_string()), "UTF-16 decoding error: lone"),
        (
            Nd2Error::UnsupportedVersion { major: 1, minor: 0 },
            "Unsupported file version: 1.0",
        ),
        (
            Nd2Error::UnsupportedVersion { major: 10, minor: 25 },
            "Unsupported file version: 10.25",
        ),
        (Nd2Error::MetadataParse("field".to_string()), "Metadata parse error: field"),
    ];
    for (error, words) in cases {
        assert_eq!(error.message(), words);
    }
    assert_eq!(
        Nd2Error::InvalidMagic { expected: 1, actual: 2 }.fault(),
        Fault::InvalidMagic { expected: 1, actual: 2 }
    );
    assert_eq!(Nd2Error::Io("x".to_string()).fault(), Fault::Io);
}
