//! Frames: from the bytes of an image chunk to planar 16-bit samples.
//!
//! A chunk stores a frame pixel by pixel, the samples of all planes of a
//! pixel side by side. The decoder hands the frame out plane by plane,
//! each plane row by row.

use crate::error::{Fault, Nd2Error};
use crate::inflate::{inflate, zlib_inflated};
use crate::le::{le_u16_at, u16_at};
use crate::types::attributes::{Attributes, CompressionType};
use vstd::arithmetic::div_mod::lemma_fundamental_div_mod_converse;
use vstd::prelude::*;
use vstd::slice::slice_subrange;

verus! {

/// The number of planes of a frame: the component count where the file
/// has no channel count or a channel count of zero, and else the channel
/// count times the whole number of components per channel.
pub open spec fn planes_of(a: Attributes) -> nat {
    match a.channel_count {
        Some(channels) => if channels > 0 {
            (channels * (a.component_count / channels)) as nat
        } else {
            a.component_count as nat
        },
        None => a.component_count as nat,
    }
}

/// The number of pixels of a plane: height times width.
pub open spec fn plane_pixels(a: Attributes) -> nat {
    (a.height_px * crate::axes::width_of(a)) as nat
}

/// The number of samples of a frame: the pixels of a plane times the
/// planes.
pub open spec fn frame_samples(a: Attributes) -> nat {
    plane_pixels(a) * planes_of(a)
}

/// The number of bytes that an uncompressed frame takes in a chunk.
pub open spec fn expected_raw_len(a: Attributes) -> nat {
    frame_samples(a) * (a.bits_per_component_in_memory / 8) as nat
}

/// Where the channel count divides the component count, a frame has as
/// many planes as components.
pub proof fn lemma_planes_are_components(a: Attributes)
    requires
        a.channel_count matches Some(channels) ==> channels == 0 || a.component_count % channels
            == 0,
    ensures
        planes_of(a) == a.component_count,
        frame_samples(a) == a.height_px * crate::axes::width_of(a) * a.component_count,
{
    match a.channel_count {
        Some(channels) => {
            if channels > 0 {
                vstd::arithmetic::div_mod::lemma_fundamental_div_mod(
                    a.component_count as int,
                    channels as int,
                );
            }
        },
        None => {},
    }
}

/// The bytes of a chunk from its ninth byte on.
pub open spec fn after_prefix(raw: Seq<u8>) -> Seq<u8> {
    if raw.len() >= 8 {
        raw.subrange(8, raw.len() as int)
    } else {
        Seq::empty()
    }
}

/// The bytes that hold the samples of a frame.
///
/// A losslessly compressed chunk has an eight-byte prefix and then a
/// zlib stream, which is inflated. Any other chunk holds the samples as
/// they are: behind an eight-byte prefix where the chunk is exactly
/// eight bytes longer than the frame, and from its start otherwise.
pub open spec fn pixel_bytes(raw: Seq<u8>, lossless: bool, expected: nat) -> Result<
    Seq<u8>,
    Fault,
> {
    if lossless {
        match zlib_inflated(after_prefix(raw)) {
            Some(bytes) => Ok(bytes),
            None => Err(Fault::Decompression),
        }
    } else if raw.len() == expected {
        Ok(raw)
    } else if raw.len() == expected + 8 {
        Ok(after_prefix(raw))
    } else {
        Ok(raw)
    }
}

/// The little-endian 16-bit samples that bytes hold; an odd byte at the
/// end holds none.
pub open spec fn samples_of(bytes: Seq<u8>) -> Seq<u16> {
    Seq::new(bytes.len() / 2, |i: int| le_u16_at(bytes, 2 * i))
}

/// The samples in planar order: sample `q` of plane `k` is the `k`-th
/// sample of pixel `q`.
pub open spec fn planar(samples: Seq<u16>, pixels: nat, planes: nat) -> Seq<u16> {
    Seq::new(pixels * planes, |i: int| samples[(i % pixels as int) * planes + i / pixels as int])
}

/// The frame that pixel bytes hold: none where they hold fewer samples
/// than a frame has.
pub open spec fn frame_of(bytes: Seq<u8>, pixels: nat, planes: nat) -> Option<Seq<u16>> {
    if samples_of(bytes).len() >= pixels * planes {
        Some(planar(samples_of(bytes), pixels, planes))
    } else {
        None
    }
}

/// Whether the file stores its frames losslessly compressed.
pub open spec fn is_lossless(a: Attributes) -> bool {
    a.compression_type == Some(CompressionType::Lossless)
}

/// Whether the machine can address a frame: its pixels, its samples and
/// its bytes can each be counted.
pub open spec fn is_addressable(a: Attributes) -> bool {
    &&& plane_pixels(a) <= usize::MAX
    &&& frame_samples(a) <= usize::MAX
    &&& expected_raw_len(a) <= usize::MAX
}

/// The frame that the bytes of an image chunk hold. A frame that the
/// machine cannot address is refused.
pub open spec fn decoded_frame(raw: Seq<u8>, a: Attributes) -> Result<Seq<u16>, Fault> {
    if !is_addressable(a) {
        Err(Fault::InvalidFormat)
    } else {
        match pixel_bytes(raw, is_lossless(a), expected_raw_len(a)) {
            Err(f) => Err(f),
            Ok(bytes) => match frame_of(bytes, plane_pixels(a), planes_of(a)) {
                Some(frame) => Ok(frame),
                None => Err(Fault::InvalidFormat),
            },
        }
    }
}

/// The measures of a frame.
#[derive(Debug, Clone, Copy, PartialEq, Eq, Structural)]
pub struct FrameGeometry {
    /// Pixels of a plane.
    pub pixels: usize,
    /// Planes of a frame.
    pub planes: usize,
    /// Samples of a frame.
    pub samples: usize,
    /// Bytes of an uncompressed frame.
    pub raw_len: usize,
}

/// Works out the measures of a frame; none where a frame is larger than
/// the machine can address.
pub fn frame_geometry(attributes: &Attributes) -> (geometry: Option<FrameGeometry>)
    ensures
        match geometry {
            Some(g) => {
                &&& g.pixels == plane_pixels(*attributes)
                &&& g.planes == planes_of(*attributes)
                &&& g.samples == frame_samples(*attributes)
                &&& g.raw_len == expected_raw_len(*attributes)
            },
            None => !is_addressable(*attributes),
        },
{
    let height: u64 = attributes.height_px as u64;
    let width: u64 = crate::axes::frame_width(attributes) as u64;
    let components: u32 = attributes.component_count;
    let planes: u64 = match attributes.channel_count {
        Some(channels) => if channels > 0 {
            let each: u32 = components / channels;
            assert(channels * each <= components) by (nonlinear_arith)
                requires
                    each == components / channels,
                    channels > 0,
            ;
            (channels * each) as u64
        } else {
            components as u64
        },
        None => components as u64,
    };
    let bytes_each: u64 = (attributes.bits_per_component_in_memory / 8) as u64;
    assert(height * width <= 0xffff_ffff * 0xffff_ffff) by (nonlinear_arith)
        requires
            height <= 0xffff_ffff,
            width <= 0xffff_ffff,
    ;
    let pixels: u64 = height * width;
    assert(pixels * planes <= 0xffff_ffff * 0xffff_ffff * 0xffff_ffff) by (nonlinear_arith)
        requires
            pixels <= 0xffff_ffff * 0xffff_ffff,
            planes <= 0xffff_ffff,
    ;
    let samples: u128 = pixels as u128 * planes as u128;
    assert(samples * bytes_each <= 0xffff_ffff * 0xffff_ffff * 0xffff_ffff * 0xffff_ffff)
        by (nonlinear_arith)
        requires
            0 <= samples <= 0xffff_ffff * 0xffff_ffff * 0xffff_ffff,
            bytes_each <= 0xffff_ffff,
    ;
    let raw_len: u128 = samples * bytes_each as u128;
    if pixels > usize::MAX as u64 || samples > usize::MAX as u128 || raw_len > usize::MAX as u128 {
        return None;
    }
    Some(
        FrameGeometry {
            pixels: pixels as usize,
            planes: planes as usize,
            samples: samples as usize,
            raw_len: raw_len as usize,
        },
    )
}

/// Picks the bytes that hold the samples of a frame out of the bytes of
/// its chunk.
pub fn select_pixel_bytes(raw: Vec<u8>, lossless: bool, expected: usize) -> (outcome: Result<
    Vec<u8>,
    Nd2Error,
>)
    ensures
        match outcome {
            Ok(bytes) => pixel_bytes(raw@, lossless, expected as nat) == Ok::<Seq<u8>, Fault>(
                bytes@,
            ),
            Err(e) => pixel_bytes(raw@, lossless, expected as nat) == Err::<Seq<u8>, Fault>(e@),
        },
{
    let total: usize = raw.len();
    if lossless {
        let from: usize = if total >= 8 {
            8
        } else {
            total
        };
        assert(raw@.subrange(from as int, total as int) =~= after_prefix(raw@));
        match inflate(slice_subrange(raw.as_slice(), from, total)) {
            Ok(bytes) => Ok(bytes),
            Err(words) => Err(Nd2Error::Decompression(words)),
        }
    } else if total == expected {
        Ok(raw)
    } else if total >= 8 && total - 8 == expected {
        Ok(crate::le::copy_range(raw.as_slice(), 8, total - 8))
    } else {
        Ok(raw)
    }
}

/// Repacks the samples that pixel bytes hold into planar order; none
/// where the bytes hold fewer samples than a frame has.
pub fn repack_planar(bytes: &[u8], pixels: usize, planes: usize) -> (frame: Option<Vec<u16>>)
    requires
        pixels * planes <= usize::MAX,
    ensures
        match frame {
            Some(out) => frame_of(bytes@, pixels as nat, planes as nat) == Some(out@),
            None => frame_of(bytes@, pixels as nat, planes as nat) is None,
        },
{
    let total: usize = bytes.len();
    let ghost samples = samples_of(bytes@);
    let count: usize = pixels * planes;
    if total / 2 < count {
        return None;
    }
    let mut out: Vec<u16> = Vec::new();
    let mut k: usize = 0;
    assert(k * pixels == 0) by (nonlinear_arith)
        requires
            k == 0,
    ;
    while k < planes
        invariant
            k <= planes,
            total == bytes@.len(),
            samples == samples_of(bytes@),
            count == pixels * planes,
            count <= total / 2,
            out@.len() == k * pixels,
            forall|i: int|
                0 <= i < out@.len() ==> #[trigger] out@[i] == samples[(i % pixels as int) * planes
                    + i / pixels as int],
        decreases planes - k,
    {
        let mut q: usize = 0;
        while q < pixels
            invariant
                k < planes,
                q <= pixels,
                total == bytes@.len(),
                samples == samples_of(bytes@),
                count == pixels * planes,
                count <= total / 2,
                out@.len() == k * pixels + q,
                forall|i: int|
                    0 <= i < out@.len() ==> #[trigger] out@[i] == samples[(i % pixels as int)
                        * planes + i / pixels as int],
            decreases pixels - q,
        {
            assert(q * planes + k < pixels * planes) by (nonlinear_arith)
                requires
                    q < pixels,
                    k < planes,
            ;
            let at: usize = q * planes + k;
            proof {
                lemma_fundamental_div_mod_converse(
                    (k * pixels + q) as int,
                    pixels as int,
                    k as int,
                    q as int,
                );
            }
            match u16_at(bytes, 2 * at) {
                Some(sample) => {
                    assert(sample == samples[at as int]);
                    out.push(sample);
                },
                None => {
                    assert(false);
                },
            }
            q += 1;
        }
        assert((k + 1) * pixels == k * pixels + pixels) by (nonlinear_arith);
        k += 1;
    }
    assert(out@.len() == pixels * planes) by (nonlinear_arith)
        requires
            out@.len() == k * pixels,
            k == planes,
    ;
    assert(out@ =~= planar(samples, pixels as nat, planes as nat));
    Some(out)
}

/// Decodes the bytes of an image chunk into the planar samples of its
/// frame.
///
/// Fails with a decompression error where a losslessly compressed chunk
/// holds no sound zlib stream, and with an invalid-format error where
/// the chunk holds fewer samples than a frame has or the frame is larger
/// than the machine can address.
pub fn decode_frame(raw: Vec<u8>, attributes: &Attributes) -> (outcome: Result<Vec<u16>, Nd2Error>)
    ensures
        match outcome {
            Ok(frame) => {
                &&& decoded_frame(raw@, *attributes) == Ok::<Seq<u16>, Fault>(frame@)
                &&& frame@.len() == frame_samples(*attributes)
            },
            Err(e) => decoded_frame(raw@, *attributes) == Err::<Seq<u16>, Fault>(e@),
        },
{
    let geometry = match frame_geometry(attributes) {
        Some(g) => g,
        None => {
            return Err(Nd2Error::InvalidFormat("Frame too large".to_string()));
        },
    };
    let lossless = match attributes.compression_type {
        Some(CompressionType::Lossless) => true,
        _ => false,
    };
    let bytes = match select_pixel_bytes(raw, lossless, geometry.raw_len) {
        Ok(bytes) => bytes,
        Err(e) => {
            return Err(e);
        },
    };
    match repack_planar(bytes.as_slice(), geometry.pixels, geometry.planes) {
        Some(frame) => Ok(frame),
        None => Err(Nd2Error::InvalidFormat("Frame data shorter than the frame".to_string())),
    }
}

/// The samples of plane `plane` of a planar frame.
pub open spec fn plane_of(frame: Seq<u16>, pixels: nat, plane: nat) -> Seq<u16> {
    frame.subrange((plane * pixels) as int, (plane * pixels + pixels) as int)
}

/// Sample `q` of plane `k` of a frame is the `k`-th little-endian sample
/// of pixel `q` in the pixel bytes, and a plane has as many samples as
/// it has pixels.
pub proof fn lemma_plane_sample(bytes: Seq<u8>, pixels: nat, planes: nat, k: nat, q: nat)
    requires
        frame_of(bytes, pixels, planes) is Some,
        k < planes,
        q < pixels,
    ensures
        plane_of(frame_of(bytes, pixels, planes).unwrap(), pixels, k).len() == pixels,
        plane_of(frame_of(bytes, pixels, planes).unwrap(), pixels, k)[q as int] == le_u16_at(
            bytes,
            2 * (q * planes + k) as int,
        ),
        frame_of(bytes, pixels, planes).unwrap()[(k * pixels + q) as int] == le_u16_at(
            bytes,
            2 * (q * planes + k) as int,
        ),
{
    let samples = samples_of(bytes);
    let frame = planar(samples, pixels, planes);
    assert(k * pixels + pixels <= pixels * planes && 0 <= k * pixels && q * planes + k < pixels
        * planes && 0 <= q * planes) by (nonlinear_arith)
        requires
            k < planes,
            q < pixels,
    ;
    lemma_fundamental_div_mod_converse((k * pixels + q) as int, pixels as int, k as int, q as int);
    let at = (k * pixels + q) as int;
    assert(frame[at] == samples[(at % pixels as int) * planes + at / pixels as int]);
    assert(samples[(q * planes + k) as int] == le_u16_at(bytes, 2 * (q * planes + k) as int));
}

/// In a file that stores its frames as they are, in samples of at least
/// 16 bits, a chunk that is as long as a frame decodes, and the sample
/// of plane `c` at row `y` and column `x` is the little-endian 16-bit
/// number that the chunk holds for component `c` of that pixel.
pub proof fn lemma_uncompressed_plane(raw: Seq<u8>, a: Attributes, c: nat, y: nat, x: nat)
    requires
        !is_lossless(a),
        is_addressable(a),
        a.bits_per_component_in_memory >= 16,
        raw.len() == expected_raw_len(a),
        c < planes_of(a),
        y < a.height_px,
        x < crate::axes::width_of(a),
    ensures
        decoded_frame(raw, a) is Ok,
        decoded_frame(raw, a).unwrap().len() == frame_samples(a),
        plane_of(decoded_frame(raw, a).unwrap(), plane_pixels(a), c).len() == a.height_px
            * crate::axes::width_of(a),
        plane_of(decoded_frame(raw, a).unwrap(), plane_pixels(a), c)[(y * crate::axes::width_of(a)
            + x) as int] == le_u16_at(
            raw,
            2 * ((y * crate::axes::width_of(a) + x) * planes_of(a) + c) as int,
        ),
{
    let width = crate::axes::width_of(a) as nat;
    let height = a.height_px as nat;
    let each = (a.bits_per_component_in_memory / 8) as nat;
    let samples = frame_samples(a);
    assert(samples * each >= samples * 2) by (nonlinear_arith)
        requires
            each >= 2,
            samples >= 0,
    ;
    assert(samples_of(raw).len() >= samples);
    assert(y * width + x < height * width && 0 <= y * width) by (nonlinear_arith)
        requires
            y < height,
            x < width,
    ;
    lemma_plane_sample(raw, plane_pixels(a), planes_of(a), c, y * width + x);
}

/// Copies one plane out of a planar frame; none where the frame has no
/// such plane.
pub fn take_plane(frame: &Vec<u16>, pixels: usize, plane: usize) -> (out: Option<Vec<u16>>)
    ensures
        match out {
            Some(samples) => {
                &&& (plane + 1) * pixels <= frame@.len()
                &&& samples@ == plane_of(frame@, pixels as nat, plane as nat)
                &&& samples@.len() == pixels
            },
            None => (plane + 1) * pixels > frame@.len(),
        },
{
    let total: usize = frame.len();
    if pixels == 0 {
        assert((plane + 1) * pixels == 0 && plane * pixels == 0) by (nonlinear_arith)
            requires
                pixels == 0,
        ;
        let out: Vec<u16> = Vec::new();
        assert(out@ =~= plane_of(frame@, pixels as nat, plane as nat));
        return Some(out);
    }
    if plane >= total / pixels {
        assert((plane + 1) * pixels > total) by (nonlinear_arith)
            requires
                plane >= total / pixels,
                pixels > 0,
                total >= 0,
        ;
        return None;
    }
    assert((plane + 1) * pixels <= total && plane * pixels + pixels == (plane + 1) * pixels)
        by (nonlinear_arith)
        requires
            plane < total / pixels,
            pixels > 0,
    ;
    let start: usize = plane * pixels;
    let mut out: Vec<u16> = Vec::new();
    let mut i: usize = 0;
    while i < pixels
        invariant
            i <= pixels,
            start + pixels <= frame@.len() <= usize::MAX,
            out@.len() == i,
            forall|j: int| 0 <= j < i ==> out@[j] == frame@[start + j],
        decreases pixels - i,
    {
        out.push(frame[start + i]);
        i += 1;
    }
    assert(out@ =~= plane_of(frame@, pixels as nat, plane as nat));
    Some(out)
}

/// The decimal digits of a number, in ASCII.
pub open spec fn decimal_digits(n: nat) -> Seq<u8>
    decreases n,
{
    if n < 10 {
        seq![(48 + n) as u8]
    } else {
        decimal_digits(n / 10).push((48 + n % 10) as u8)
    }
}

/// The name of the chunk that holds frame `seq`: `ImageDataSeq|`, the
/// decimal digits of `seq`, and `!`.
pub open spec fn frame_chunk_name(seq: nat) -> Seq<u8> {
    crate::constants::FRAME_CHUNK_PREFIX@ + decimal_digits(seq) + seq![0x21u8]
}

/// Writes the decimal digits of a number.
fn push_decimal(out: &mut Vec<u8>, n: usize)
    ensures
        final(out)@ == old(out)@ + decimal_digits(n as nat),
    decreases n,
{
    if n >= 10 {
        push_decimal(out, n / 10);
    }
    let ghost before = out@;
    out.push((48 + n % 10) as u8);
    proof {
        if n >= 10 {
            assert(out@ =~= old(out)@ + decimal_digits(n as nat));
        } else {
            assert(out@ =~= old(out)@ + decimal_digits(n as nat));
        }
    }
}

/// Spells the name of the chunk that holds frame `seq`.
pub fn chunk_name_of_frame(seq: usize) -> (name: Vec<u8>)
    ensures
        name@ == frame_chunk_name(seq as nat),
{
    let mut name: Vec<u8> = Vec::new();
    let mut i: usize = 0;
    while i < 13
        invariant
            i <= 13,
            name@.len() == i,
            forall|j: int| 0 <= j < i ==> name@[j] == crate::constants::FRAME_CHUNK_PREFIX@[j],
        decreases 13 - i,
    {
        name.push(crate::constants::FRAME_CHUNK_PREFIX[i]);
        i += 1;
    }
    assert(name@ =~= crate::constants::FRAME_CHUNK_PREFIX@);
    push_decimal(&mut name, seq);
    name.push(0x21);
    assert(name@ =~= frame_chunk_name(seq as nat));
    name
}

} // verus!
