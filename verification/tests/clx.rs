//! The CLX-Lite decoder on hand-built streams.

use flate2::write::ZlibEncoder;
use flate2::Compression;
use nd2_rs::parse::clx_lite::{looks_like_clx_lite, put_entry, ClxLiteParser};
use nd2_rs::parse::text::{decode_utf16_le, strip_lowercase_prefix, trim_trailing_nuls};
use nd2_rs::parse::value::{find_entry, ClxValue};
use nd2_rs::Nd2Error;
use std::io::Write;

fn utf16(text: &str) -> Vec<u8> {
    let mut out = Vec::new();
    for unit in text.encode_utf16() {
        out.extend_from_slice(&unit.to_le_bytes());
    }
    out
}

/// A record header: type, name length in code units with the terminator,
/// and the terminated name.
fn header(data_type: u8, name: &str) -> Vec<u8> {
    let units = name.encode_utf16().count() + 1;
    let mut out = vec![data_type, units as u8];
    out.extend(utf16(name));
    out.extend_from_slice(&[0, 0]);
    out
}

fn record(data_type: u8, name: &str, payload: &[u8]) -> Vec<u8> {
    let mut out = header(data_type, name);
    out.extend_from_slice(payload);
    out
}

fn level(name: &str, items: &[Vec<u8>]) -> Vec<u8> {
    let mut body = Vec::new();
    for item in items {
        body.extend_from_slice(item);
    }
    let mut out = header(11, name);
    out.extend_from_slice(&(items.len() as u32).to_le_bytes());
    out.extend_from_slice(&(body.len() as u64).to_le_bytes());
    out.extend(body);
    for _ in items {
        out.extend_from_slice(&0u64.to_le_bytes());
    }
    out
}

fn string_payload(text: &str) -> Vec<u8> {
    let mut out = utf16(text);
    out.extend_from_slice(&[0, 0]);
    out
}

fn byte_array_payload(bytes: &[u8]) -> Vec<u8> {
    let mut out = (bytes.len() as u64).to_le_bytes().to_vec();
    out.extend_from_slice(bytes);
    out
}

fn object(entries: Vec<(&str, ClxValue)>) -> ClxValue {
    ClxValue::Object(entries.into_iter().map(|(k, v)| (k.to_string(), v)).collect())
}

fn zlib(bytes: &[u8]) -> Vec<u8> {
    let mut encoder = ZlibEncoder::new(Vec::new(), Compression::default());
    encoder.write_all(bytes).unwrap();
    encoder.finish().unwrap()
}

#[test]
fn decodes_each_primitive_type_and_a_level() {
    let items = vec![
        record(1, "flag", &[1]),
        record(2, "small", &(-5i32).to_le_bytes()),
        record(3, "count", &7u32.to_le_bytes()),
        record(4, "wide", &(-1_000_000_000_000i64).to_le_bytes()),
        record(5, "big", &u64::MAX.to_le_bytes()),
        record(6, "real", &1.5f64.to_le_bytes()),
        record(7, "pointer", &0xDEAD_BEEFu64.to_le_bytes()),
        record(8, "text", &string_payload("héllo")),
        record(9, "blob", &byte_array_payload(&[9, 8, 7])),
        level("inner", &[record(3, "x", &1u32.to_le_bytes())]),
    ];
    let data = level("root", &items);
    let parsed = ClxLiteParser::new(false).parse(&data).unwrap();
    let expected = object(vec![(
        "root",
        object(vec![
            ("flag", ClxValue::Bool(true)),
            ("small", ClxValue::Int(-5)),
            ("count", ClxValue::UInt(7)),
            ("wide", ClxValue::Int(-1_000_000_000_000)),
            ("big", ClxValue::UInt(u64::MAX)),
            ("real", ClxValue::Float(1.5f64.to_bits())),
            ("pointer", ClxValue::UInt(0xDEAD_BEEF)),
            ("text", ClxValue::String("héllo".to_string())),
            ("blob", ClxValue::ByteArray(vec![9, 8, 7])),
            ("inner", object(vec![("x", ClxValue::UInt(1))])),
        ]),
    )]);
    assert_eq!(parsed, expected);
}

#[test]
fn level_of_unnamed_items_becomes_an_array() {
    let items = vec![
        record(3, "", &10u32.to_le_bytes()),
        record(3, "", &20u32.to_le_bytes()),
        record(3, "", &30u32.to_le_bytes()),
    ];
    let data = level("list", &items);
    let parsed = ClxLiteParser::new(false).parse(&data).unwrap();
    let expected = object(vec![(
        "list",
        ClxValue::Array(vec![ClxValue::UInt(10), ClxValue::UInt(20), ClxValue::UInt(30)]),
    )]);
    assert_eq!(parsed, expected);
}

#[test]
fn level_with_one_unnamed_scalar_stays_an_object() {
    let data = level("list", &[record(3, "", &10u32.to_le_bytes())]);
    let parsed = ClxLiteParser::new(false).parse(&data).unwrap();
    let expected = object(vec![("list", object(vec![("", ClxValue::UInt(10))]))]);
    assert_eq!(parsed, expected);
}

#[test]
fn three_unnamed_entries_collect_under_the_empty_name() {
    let mut entries: Vec<(String, ClxValue)> = Vec::new();
    put_entry(&mut entries, "kept".to_string(), ClxValue::Bool(true));
    put_entry(&mut entries, String::new(), ClxValue::UInt(1));
    assert_eq!(find_entry(&entries, ""), Some(&ClxValue::UInt(1)));
    put_entry(&mut entries, String::new(), ClxValue::UInt(2));
    put_entry(&mut entries, String::new(), ClxValue::UInt(3));
    assert_eq!(entries.len(), 2);
    match find_entry(&entries, "") {
        Some(ClxValue::Array(items)) => {
            assert_eq!(items.len(), 3);
            assert_eq!(items[0], ClxValue::UInt(1));
            assert_eq!(items[2], ClxValue::UInt(3));
        }
        other => panic!("expected an array, got {:?}", other),
    }
}

#[test]
fn three_unnamed_records_in_one_object_decode_to_an_array_of_three() {
    let items = vec![
        record(3, "", &1u32.to_le_bytes()),
        record(8, "kept", &string_payload("x")),
        record(3, "", &2u32.to_le_bytes()),
        record(3, "", &3u32.to_le_bytes()),
    ];
    let data = level("mixed", &items);
    let parsed = ClxLiteParser::new(false).parse(&data).unwrap();
    let expected = object(vec![(
        "mixed",
        object(vec![
            ("", ClxValue::Array(vec![ClxValue::UInt(1), ClxValue::UInt(2), ClxValue::UInt(3)])),
            ("kept", ClxValue::String("x".to_string())),
        ]),
    )]);
    assert_eq!(parsed, expected);
    match &parsed {
        ClxValue::Object(root) => match find_entry(root, "mixed") {
            Some(ClxValue::Object(inner)) => match find_entry(inner, "") {
                Some(ClxValue::Array(list)) => assert_eq!(list.len(), 3),
                other => panic!("expected an array, got {:?}", other),
            },
            other => panic!("expected an object, got {:?}", other),
        },
        other => panic!("expected an object, got {:?}", other),
    }
}

#[test]
fn later_value_replaces_earlier_of_same_name() {
    let mut entries: Vec<(String, ClxValue)> = Vec::new();
    put_entry(&mut entries, "a".to_string(), ClxValue::UInt(1));
    put_entry(&mut entries, "b".to_string(), ClxValue::UInt(2));
    put_entry(&mut entries, "a".to_string(), ClxValue::UInt(3));
    assert_eq!(
        entries,
        vec![("a".to_string(), ClxValue::UInt(3)), ("b".to_string(), ClxValue::UInt(2))]
    );
}

#[test]
fn end_marker_stops_a_level_early() {
    let mut body = record(3, "a", &1u32.to_le_bytes());
    body.extend(header(0xFF, ""));
    body.extend(record(3, "b", &2u32.to_le_bytes()));
    let mut data = header(11, "root");
    data.extend_from_slice(&3u32.to_le_bytes());
    data.extend_from_slice(&0u64.to_le_bytes());
    data.extend(body);
    let parsed = ClxLiteParser::new(false).parse(&data).unwrap();
    assert_eq!(parsed, object(vec![("root", object(vec![("a", ClxValue::UInt(1))]))]));
}

#[test]
fn compressed_stream_is_inflated_and_decoded() {
    let inner = record(8, "sName", &string_payload("value"));
    let mut data = vec![76u8, 0];
    data.extend_from_slice(&[0u8; 10]);
    data.extend(zlib(&inner));
    let parsed = ClxLiteParser::new(false).parse(&data).unwrap();
    assert_eq!(parsed, object(vec![("sName", ClxValue::String("value".to_string()))]));
}

#[test]
fn corrupt_compressed_stream_is_a_decompression_error() {
    let mut data = vec![76u8, 0];
    data.extend_from_slice(&[0u8; 10]);
    data.extend_from_slice(&[1, 2, 3, 4, 5]);
    let outcome = ClxLiteParser::new(false).parse(&data);
    match outcome {
        Err(Nd2Error::Decompression(words)) => assert_eq!(words, "corrupt deflate stream"),
        other => panic!("expected a decompression error, got {:?}", other),
    }
}

#[test]
fn cut_compressed_stream_is_a_decompression_error() {
    let inner = record(8, "sName", &string_payload("a value that is long enough to be cut"));
    let packed = zlib(&inner);
    let mut data = vec![76u8, 0];
    data.extend_from_slice(&[0u8; 10]);
    data.extend_from_slice(&packed[..packed.len() / 2]);
    let outcome = ClxLiteParser::new(false).parse(&data);
    match outcome {
        Err(Nd2Error::Decompression(words)) => assert!(!words.is_empty()),
        other => panic!("expected a decompression error, got {:?}", other),
    }
}

#[test]
fn compress_records_nested_too_deep_are_refused() {
    let mut data = record(3, "x", &1u32.to_le_bytes());
    for _ in 0..17 {
        let mut outer = vec![76u8, 0];
        outer.extend_from_slice(&[0u8; 10]);
        outer.extend(zlib(&data));
        data = outer;
    }
    let outcome = ClxLiteParser::new(false).parse(&data);
    assert!(matches!(outcome, Err(Nd2Error::ClxParse(_))));
}

#[test]
fn compress_records_nested_sixteen_deep_decode() {
    let mut data = record(3, "x", &1u32.to_le_bytes());
    for _ in 0..16 {
        let mut outer = vec![76u8, 0];
        outer.extend_from_slice(&[0u8; 10]);
        outer.extend(zlib(&data));
        data = outer;
    }
    let parsed = ClxLiteParser::new(false).parse(&data).unwrap();
    assert_eq!(parsed, object(vec![("x", ClxValue::UInt(1))]));
}

#[test]
fn byte_array_holding_a_stream_is_decoded() {
    let nested = record(3, "uiInner", &42u32.to_le_bytes());
    let data = record(9, "blob", &byte_array_payload(&nested));
    let parsed = ClxLiteParser::new(false).parse(&data).unwrap();
    assert_eq!(parsed, object(vec![("blob", object(vec![("uiInner", ClxValue::UInt(42))]))]));
}

#[test]
fn byte_array_that_fails_to_decode_stays_raw() {
    // Looks like a record of type 3 named "ab", but its payload is cut short.
    let mut nested = header(3, "ab");
    nested.push(1);
    assert!(looks_like_clx_lite(&nested));
    let data = record(9, "blob", &byte_array_payload(&nested));
    let parsed = ClxLiteParser::new(false).parse(&data).unwrap();
    assert_eq!(parsed, object(vec![("blob", ClxValue::ByteArray(nested))]));
}

#[test]
fn nested_detection_wants_a_terminated_name_of_two_units() {
    assert!(!looks_like_clx_lite(&[]));
    assert!(!looks_like_clx_lite(&[3]));
    assert!(looks_like_clx_lite(&[76, 0]));
    assert!(!looks_like_clx_lite(&[0, 2, 65, 0, 0, 0]));
    assert!(!looks_like_clx_lite(&[12, 2, 65, 0, 0, 0]));
    assert!(!looks_like_clx_lite(&[3, 1, 0, 0]));
    assert!(!looks_like_clx_lite(&[3, 2, 65, 0]));
    assert!(!looks_like_clx_lite(&[3, 2, 65, 0, 66, 0]));
    assert!(looks_like_clx_lite(&[3, 2, 65, 0, 0, 0]));
    assert!(looks_like_clx_lite(&[11, 2, 65, 0, 0, 0, 1, 2, 3]));
}

#[test]
fn reserved_type_codes_are_parse_errors() {
    for code in [0u8, 10u8] {
        let data = record(code, "x", &[0; 8]);
        let outcome = ClxLiteParser::new(false).parse(&data);
        assert!(matches!(outcome, Err(Nd2Error::ClxParse(_))));
    }
}

#[test]
fn unknown_type_code_is_unsupported() {
    let data = record(12, "x", &[0; 8]);
    let outcome = ClxLiteParser::new(false).parse(&data);
    assert!(matches!(outcome, Err(Nd2Error::UnsupportedClxType(12))));
}

#[test]
fn truncated_streams_are_parse_errors() {
    let whole = record(5, "value", &7u64.to_le_bytes());
    for cut in 0..whole.len() {
        let outcome = ClxLiteParser::new(false).parse(&whole[..cut]);
        assert!(matches!(outcome, Err(Nd2Error::ClxParse(_))), "cut at {}", cut);
    }
    let text = record(8, "t", &utf16("no end"));
    assert!(matches!(ClxLiteParser::new(false).parse(&text), Err(Nd2Error::ClxParse(_))));
    let mut blob = header(9, "b");
    blob.extend_from_slice(&100u64.to_le_bytes());
    blob.extend_from_slice(&[1, 2, 3]);
    assert!(matches!(ClxLiteParser::new(false).parse(&blob), Err(Nd2Error::ClxParse(_))));
}

#[test]
fn lone_surrogate_is_a_utf16_error() {
    let mut data = vec![3u8, 2, 0x00, 0xD8, 0, 0];
    data.extend_from_slice(&1u32.to_le_bytes());
    let outcome = ClxLiteParser::new(false).parse(&data);
    assert!(matches!(outcome, Err(Nd2Error::Utf16Decode(_))));
    assert!(matches!(decode_utf16_le(&[0x00, 0xDC]), Err(Nd2Error::Utf16Decode(_))));
}

#[test]
fn surrogate_pairs_decode_to_one_character() {
    let bytes = utf16("a\u{1F600}b");
    assert_eq!(decode_utf16_le(&bytes).unwrap(), "a\u{1F600}b");
    let mut odd = utf16("xy");
    odd.push(0x41);
    assert_eq!(decode_utf16_le(&odd).unwrap(), "xy");
}

#[test]
fn strip_prefix_mode_drops_lowercase_prefix() {
    let data = record(3, "uiWidth", &512u32.to_le_bytes());
    let parsed = ClxLiteParser::new(true).parse(&data).unwrap();
    assert_eq!(parsed, object(vec![("Width", ClxValue::UInt(512))]));
    let raw = ClxLiteParser::new(false).parse(&data).unwrap();
    assert_eq!(raw, object(vec![("uiWidth", ClxValue::UInt(512))]));
}

#[test]
fn strips_lowercase_letters_and_underscores() {
    assert_eq!(strip_lowercase_prefix("uiWidth"), "Width");
    assert_eq!(strip_lowercase_prefix("_p_Name"), "Name");
    assert_eq!(strip_lowercase_prefix("Width"), "Width");
    assert_eq!(strip_lowercase_prefix("abc"), "");
    assert_eq!(strip_lowercase_prefix("éA"), "A");
    assert_eq!(strip_lowercase_prefix(""), "");
}

#[test]
fn trims_only_trailing_nuls() {
    assert_eq!(trim_trailing_nuls("ab\0\0"), "ab");
    assert_eq!(trim_trailing_nuls("a\0b\0"), "a\0b");
    assert_eq!(trim_trailing_nuls("\0"), "");
    assert_eq!(trim_trailing_nuls("héllo"), "héllo");
}

#[test]
fn read_chunk_header_gives_name_type_and_position() {
    let data = record(3, "uiCount", &5u32.to_le_bytes());
    let (name, data_type, next) = ClxLiteParser::new(false).read_chunk_header(&data, 0).unwrap();
    assert_eq!(name, "uiCount");
    assert_eq!(data_type, 3);
    assert_eq!(next, 2 + 2 * 8);
    let (name, _, _) = ClxLiteParser::new(true).read_chunk_header(&data, 0).unwrap();
    assert_eq!(name, "Count");
    let (name, data_type, next) = ClxLiteParser::new(false).read_chunk_header(&[76, 9], 0).unwrap();
    assert_eq!((name.as_str(), data_type, next), ("", 76, 2));
}

#[test]
fn level_offset_table_may_be_cut_short() {
    let mut data = header(11, "root");
    data.extend_from_slice(&1u32.to_le_bytes());
    data.extend_from_slice(&0u64.to_le_bytes());
    data.extend(record(1, "b", &[0]));
    let parsed = ClxLiteParser::new(false).parse(&data).unwrap();
    assert_eq!(parsed, object(vec![("root", object(vec![("b", ClxValue::Bool(false))]))]));
}

#[test]
fn clone_of_a_value_is_equal_to_it() {
    let value = object(vec![
        ("a", ClxValue::Array(vec![ClxValue::Int(1), ClxValue::String("s".to_string())])),
        ("b", ClxValue::ByteArray(vec![1, 2])),
    ]);
    assert_eq!(value.clone(), value);
}
