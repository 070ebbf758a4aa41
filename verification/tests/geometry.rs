//! Axes, sequence indices and frames on concrete values.

use nd2_rs::axes::{channel_count, frame_width, resolve_axes, Axis, AxisLayout, FrameIndex, Sizes};
use nd2_rs::frame::{
    chunk_name_of_frame, decode_frame, frame_geometry, repack_planar, select_pixel_bytes,
    take_plane, FrameGeometry,
};
use nd2_rs::le::{bytes_match_at, copy_range, i32_at, i64_at, same_bytes, u16_at, u32_at, u64_at};
use nd2_rs::ravel::{ravel_index, unravel_index};
use nd2_rs::types::attributes::{Attributes, CompressionType, PixelDataType};
use nd2_rs::types::experiment::{
    CustomLoop, ExpLoop, NETimeLoop, NETimeLoopParams, TimeLoop, TimeLoopParams, XYPosLoop,
    XYPosLoopParams, ZStackLoop, ZStackLoopParams,
};
use nd2_rs::types::number::Number;
use nd2_rs::Nd2Error;

fn attributes(width: u32, height: u32, components: u32, frames: u32) -> Attributes {
    Attributes {
        bits_per_component_in_memory: 16,
        bits_per_component_significant: 12,
        component_count: components,
        height_px: height,
        pixel_data_type: PixelDataType::Unsigned,
        sequence_count: frames,
        width_bytes: None,
        width_px: Some(width),
        compression_level: None,
        compression_type: None,
        tile_height_px: None,
        tile_width_px: None,
        channel_count: None,
    }
}

fn time(count: u32) -> ExpLoop {
    ExpLoop::TimeLoop(TimeLoop {
        count,
        nesting_level: 0,
        parameters: TimeLoopParams {
            start_ms: Number::zero(),
            period_ms: Number::zero(),
            duration_ms: Number::zero(),
            period_diff: None,
        },
    })
}

fn periods(count: u32) -> ExpLoop {
    ExpLoop::NETimeLoop(NETimeLoop {
        count,
        nesting_level: 0,
        parameters: NETimeLoopParams { periods: Vec::new() },
    })
}

fn positions(count: u32) -> ExpLoop {
    ExpLoop::XYPosLoop(XYPosLoop {
        count,
        nesting_level: 0,
        parameters: XYPosLoopParams {
            is_setting_z: false,
            reference_xy_um: None,
            points: Vec::new(),
        },
    })
}

fn stack(count: u32) -> ExpLoop {
    ExpLoop::ZStackLoop(ZStackLoop {
        count,
        nesting_level: 0,
        parameters: ZStackLoopParams {
            home_index: 0,
            step_um: Number::zero(),
            bottom_to_top: true,
            device_name: None,
        },
    })
}

fn custom(count: u32) -> ExpLoop {
    ExpLoop::CustomLoop(CustomLoop { count, nesting_level: 0 })
}

fn sizes(layout: &AxisLayout) -> (usize, usize, usize, usize, usize, usize) {
    let s = layout.sizes;
    (s.p, s.t, s.c, s.z, s.y, s.x)
}

#[test]
fn axes_follow_the_loops_then_c_then_the_rest() {
    let a = attributes(4, 3, 2, 100);
    let layout = resolve_axes(&a, &vec![time(5), stack(7)]).unwrap();
    assert_eq!(layout.axis_order, vec![Axis::T, Axis::Z, Axis::C, Axis::P]);
    assert_eq!(layout.coord_shape, vec![5, 7, 2, 1]);
    assert_eq!(sizes(&layout), (1, 5, 2, 7, 3, 4));
    assert_eq!(layout.frame_count(), 70);

    let layout = resolve_axes(&a, &vec![stack(2), positions(3), time(4)]).unwrap();
    assert_eq!(layout.axis_order, vec![Axis::Z, Axis::P, Axis::T, Axis::C]);
    assert_eq!(layout.coord_shape, vec![2, 3, 4, 2]);

    let layout = resolve_axes(&a, &vec![custom(9)]).unwrap();
    assert_eq!(layout.axis_order, vec![Axis::C, Axis::P, Axis::T, Axis::Z]);
    assert_eq!(layout.coord_shape, vec![2, 1, 1, 1]);
}

#[test]
fn first_loop_along_an_axis_gives_its_size() {
    let a = attributes(4, 3, 1, 100);
    let layout = resolve_axes(&a, &vec![time(5), periods(6), positions(2), time(8)]).unwrap();
    assert_eq!(layout.axis_order, vec![Axis::T, Axis::P, Axis::C, Axis::Z]);
    assert_eq!(sizes(&layout), (2, 5, 1, 1, 3, 4));
    let layout = resolve_axes(&a, &vec![periods(6), time(5)]).unwrap();
    assert_eq!(layout.sizes.t, 6);
}

#[test]
fn without_loops_time_is_the_sequence_count_per_channel() {
    let mut a = attributes(4, 3, 3, 10);
    let layout = resolve_axes(&a, &Vec::new()).unwrap();
    assert_eq!(layout.axis_order, vec![Axis::P, Axis::T, Axis::C, Axis::Z]);
    assert_eq!(sizes(&layout), (1, 3, 3, 1, 3, 4));
    a.channel_count = Some(2);
    assert_eq!(sizes(&resolve_axes(&a, &Vec::new()).unwrap()), (1, 5, 2, 1, 3, 4));
    a.channel_count = Some(0);
    let layout = resolve_axes(&a, &Vec::new()).unwrap();
    assert_eq!(sizes(&layout), (1, 10, 0, 1, 3, 4));
    assert_eq!(layout.frame_count(), 0);
    assert!(layout.loop_indices().is_empty());
    assert_eq!(layout.coords_of(0), None);
}

#[test]
fn width_is_stored_or_derived_from_the_bytes_of_a_row() {
    let mut a = attributes(640, 480, 3, 1);
    assert_eq!(frame_width(&a), 640);
    a.width_px = None;
    assert_eq!(frame_width(&a), 0);
    a.width_bytes = Some(3840);
    assert_eq!(frame_width(&a), 640);
    a.bits_per_component_in_memory = 7;
    assert_eq!(frame_width(&a), 0);
    a.bits_per_component_in_memory = 8;
    a.component_count = 0;
    assert_eq!(frame_width(&a), 0);
    assert_eq!(channel_count(&a), 0);
    a.channel_count = Some(4);
    assert_eq!(channel_count(&a), 4);
}

#[test]
fn too_many_frames_are_refused() {
    let mut a = attributes(1, 1, 1, 1);
    a.channel_count = Some(u32::MAX);
    let loops = vec![time(u32::MAX), positions(u32::MAX), stack(u32::MAX)];
    assert!(matches!(resolve_axes(&a, &loops), Err(Nd2Error::InvalidFormat(_))));
}

#[test]
fn every_sequence_index_round_trips() {
    let a = attributes(4, 3, 2, 100);
    for loops in [
        vec![time(5), stack(7)],
        vec![stack(2), positions(3), time(4)],
        vec![positions(3)],
        Vec::new(),
    ] {
        let layout = resolve_axes(&a, &loops).unwrap();
        let count = layout.frame_count();
        let indices = layout.loop_indices();
        assert_eq!(indices.len(), count);
        let s = layout.sizes;
        assert_eq!(count, s.p * s.t * s.c * s.z);
        for seq in 0..count {
            let at = layout.coords_of(seq).unwrap();
            assert_eq!(indices[seq], at);
            assert!(at.p < s.p && at.t < s.t && at.c < s.c && at.z < s.z);
            assert_eq!(layout.seq_of(&at), Some(seq));
        }
        assert_eq!(layout.coords_of(count), None);
    }
}

#[test]
fn last_axis_varies_fastest() {
    let a = attributes(4, 3, 2, 100);
    let layout = resolve_axes(&a, &vec![time(5), stack(7)]).unwrap();
    // Order T, Z, C, P with shape 5, 7, 2, 1: strides 14, 2, 1, 1.
    assert_eq!(layout.coords_of(0), Some(FrameIndex { p: 0, t: 0, c: 0, z: 0 }));
    assert_eq!(layout.coords_of(1), Some(FrameIndex { p: 0, t: 0, c: 1, z: 0 }));
    assert_eq!(layout.coords_of(2), Some(FrameIndex { p: 0, t: 0, c: 0, z: 1 }));
    assert_eq!(layout.coords_of(14), Some(FrameIndex { p: 0, t: 1, c: 0, z: 0 }));
    assert_eq!(layout.coords_of(69), Some(FrameIndex { p: 0, t: 4, c: 1, z: 6 }));
    assert_eq!(layout.seq_of(&FrameIndex { p: 0, t: 3, c: 1, z: 2 }), Some(3 * 14 + 2 * 2 + 1));
    assert_eq!(layout.seq_of(&FrameIndex { p: 1, t: 0, c: 0, z: 0 }), None);
    assert_eq!(layout.seq_of(&FrameIndex { p: 0, t: 5, c: 0, z: 0 }), None);
    assert_eq!(layout.seq_of(&FrameIndex { p: 0, t: 0, c: 2, z: 0 }), None);
    assert_eq!(layout.seq_of(&FrameIndex { p: 0, t: 0, c: 0, z: 7 }), None);
}

#[test]
fn ravel_and_unravel_are_inverse() {
    let shape = vec![3usize, 4, 5];
    for seq in 0..60 {
        let coords = unravel_index(&shape, seq);
        assert_eq!(coords, vec![seq / 20, (seq / 5) % 4, seq % 5]);
        assert_eq!(ravel_index(&shape, &coords), Some(seq));
    }
    assert_eq!(ravel_index(&shape, &vec![2, 3, 4]), Some(59));
    assert_eq!(ravel_index(&shape, &vec![3, 0, 0]), None);
    assert_eq!(ravel_index(&shape, &vec![0, 0]), None);
    assert_eq!(ravel_index(&Vec::new(), &Vec::new()), Some(0));
    assert_eq!(unravel_index(&Vec::new(), 0), Vec::<usize>::new());
}

#[test]
fn sizes_and_coordinates_are_found_by_name() {
    let s = Sizes { p: 1, t: 2, c: 3, z: 4, y: 5, x: 6 };
    assert_eq!(
        ["P", "T", "C", "Z", "Y", "X"].map(|k| s.get(k)),
        [Some(1), Some(2), Some(3), Some(4), Some(5), Some(6)]
    );
    assert_eq!(s.get("p"), None);
    assert_eq!(s.get(""), None);
    assert_eq!(s.size_of(Axis::C), 3);
    let at = FrameIndex { p: 1, t: 2, c: 3, z: 4 };
    assert_eq!(["P", "T", "C", "Z"].map(|k| at.get(k)), [Some(1), Some(2), Some(3), Some(4)]);
    assert_eq!(at.get("Y"), None);
    assert_eq!(at.coordinate(Axis::Z), 4);
}

fn le_samples(values: &[u16]) -> Vec<u8> {
    values.iter().flat_map(|v| v.to_le_bytes()).collect()
}

#[test]
fn interleaved_samples_become_planes() {
    // Two pixels of three planes each.
    let bytes = le_samples(&[1, 2, 3, 4, 5, 6]);
    assert_eq!(repack_planar(&bytes, 2, 3), Some(vec![1, 4, 2, 5, 3, 6]));
    assert_eq!(repack_planar(&bytes, 6, 1), Some(vec![1, 2, 3, 4, 5, 6]));
    assert_eq!(repack_planar(&bytes, 1, 6), Some(vec![1, 2, 3, 4, 5, 6]));
    assert_eq!(repack_planar(&bytes, 2, 2), Some(vec![1, 3, 2, 4]));
    assert_eq!(repack_planar(&bytes, 7, 1), None);
    assert_eq!(repack_planar(&bytes[..11], 2, 3), None);
    assert_eq!(repack_planar(&bytes, 0, 3), Some(Vec::new()));
    assert_eq!(repack_planar(&[0x34, 0x12, 0xFF], 1, 1), Some(vec![0x1234]));
}

#[test]
fn frame_has_height_times_width_times_planes_samples() {
    let mut a = attributes(3, 2, 2, 1);
    let g = frame_geometry(&a).unwrap();
    assert_eq!(g, FrameGeometry { pixels: 6, planes: 2, samples: 12, raw_len: 24 });
    let raw = le_samples(&(0..12).collect::<Vec<u16>>());
    let frame = decode_frame(raw, &a).unwrap();
    assert_eq!(frame.len(), 3 * 2 * 2);
    assert_eq!(frame, vec![0, 2, 4, 6, 8, 10, 1, 3, 5, 7, 9, 11]);
    assert_eq!(take_plane(&frame, 6, 0), Some(vec![0, 2, 4, 6, 8, 10]));
    assert_eq!(take_plane(&frame, 6, 1), Some(vec![1, 3, 5, 7, 9, 11]));
    assert_eq!(take_plane(&frame, 6, 2), None);
    assert_eq!(take_plane(&frame, 0, 5), Some(Vec::new()));

    a.component_count = 6;
    a.channel_count = Some(2);
    assert_eq!(frame_geometry(&a).unwrap().planes, 6);
    a.component_count = 3;
    assert_eq!(frame_geometry(&a).unwrap().planes, 2);
    a.channel_count = Some(0);
    assert_eq!(frame_geometry(&a).unwrap().planes, 3);
    a.bits_per_component_in_memory = 8;
    assert_eq!(frame_geometry(&a).unwrap().raw_len, 18);
}

#[test]
fn pixel_bytes_are_chosen_by_length() {
    let raw: Vec<u8> = (0..20).collect();
    assert_eq!(select_pixel_bytes(raw.clone(), false, 20).unwrap(), raw);
    assert_eq!(select_pixel_bytes(raw.clone(), false, 12).unwrap(), raw[8..].to_vec());
    assert_eq!(select_pixel_bytes(raw.clone(), false, 13).unwrap(), raw);
    assert_eq!(select_pixel_bytes(raw.clone(), false, 100).unwrap(), raw);
    assert!(matches!(select_pixel_bytes(raw, true, 20), Err(Nd2Error::Decompression(_))));
    assert!(matches!(
        select_pixel_bytes(vec![1, 2, 3], true, 0),
        Err(Nd2Error::Decompression(_))
    ));
}

#[test]
fn lossless_frame_with_a_corrupt_stream_is_a_decompression_error() {
    let mut a = attributes(1, 1, 1, 1);
    a.compression_type = Some(CompressionType::Lossless);
    assert!(matches!(decode_frame(vec![0; 20], &a), Err(Nd2Error::Decompression(_))));
    a.compression_type = Some(CompressionType::Lossy);
    assert_eq!(decode_frame(vec![7, 0], &a).unwrap(), vec![7]);
}

#[test]
fn frame_chunks_are_named_by_decimal_index() {
    assert_eq!(chunk_name_of_frame(0), b"ImageDataSeq|0!".to_vec());
    assert_eq!(chunk_name_of_frame(9), b"ImageDataSeq|9!".to_vec());
    assert_eq!(chunk_name_of_frame(10), b"ImageDataSeq|10!".to_vec());
    assert_eq!(chunk_name_of_frame(1234567890), b"ImageDataSeq|1234567890!".to_vec());
    assert_eq!(
        chunk_name_of_frame(usize::MAX),
        format!("ImageDataSeq|{}!", usize::MAX).into_bytes()
    );
}

#[test]
fn little_endian_numbers_are_read_in_bounds() {
    let data = [0x01u8, 0x02, 0x03, 0x04, 0x05, 0x06, 0x07, 0x08, 0xFF];
    assert_eq!(u16_at(&data, 0), Some(0x0201));
    assert_eq!(u16_at(&data, 7), Some(0xFF08));
    assert_eq!(u16_at(&data, 8), None);
    assert_eq!(u32_at(&data, 1), Some(0x0504_0302));
    assert_eq!(u32_at(&data, 6), None);
    assert_eq!(u64_at(&data, 0), Some(0x0807_0605_0403_0201));
    assert_eq!(u64_at(&data, 1), Some(0xFF08_0706_0504_0302));
    assert_eq!(u64_at(&data, 2), None);
    assert_eq!(u64_at(&data, usize::MAX), None);
    assert_eq!(i32_at(&[0xFE, 0xFF, 0xFF, 0xFF], 0), Some(-2));
    assert_eq!(i32_at(&[0xFF, 0xFF, 0xFF, 0x7F], 0), Some(i32::MAX));
    assert_eq!(i32_at(&[0, 0, 0, 0x80], 0), Some(i32::MIN));
    assert_eq!(i64_at(&[0xFF; 8], 0), Some(-1));
    assert_eq!(i64_at(&[0, 0, 0, 0, 0, 0, 0, 0x80], 0), Some(i64::MIN));
    assert_eq!(i64_at(&[0xFF; 7], 0), None);
}

#[test]
fn byte_windows_are_compared_and_copied() {
    let data = b"hello world";
    assert!(bytes_match_at(data, 6, b"world"));
    assert!(!bytes_match_at(data, 6, b"worle"));
    assert!(!bytes_match_at(data, 7, b"world"));
    assert!(bytes_match_at(data, 11, b""));
    assert!(!bytes_match_at(data, 12, b""));
    assert!(same_bytes(b"abc", b"abc"));
    assert!(!same_bytes(b"abc", b"abd"));
    assert!(!same_bytes(b"abc", b"ab"));
    assert!(same_bytes(b"", b""));
    assert_eq!(copy_range(data, 6, 5), b"world".to_vec());
    assert_eq!(copy_range(data, 11, 0), Vec::<u8>::new());
}
