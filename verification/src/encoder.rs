//! Writing IDP streams: the mirror of the decoder.

use crate::buffer::ImageBuffer;
use crate::color::{GrayF32, GrayU16, PixelType};
use crate::decoder::{
    frame_at, header_at, header_size, sample_size, samples_at, DecodingResult, Header, Samples,
};
use crate::endian;
use crate::endian::{
    lemma_u16s_le_round_trip, lemma_u16s_to_le_push, lemma_u32_le_round_trip,
    lemma_u32s_le_round_trip, lemma_u32s_to_le_push, u16_to_le, u16s_to_le, u32_to_le, u32s_to_le,
};
use crate::traits::Container;
use core::ops::Deref;
use vstd::prelude::*;

verus! {

/// The second format tag of an encoding; the first is always 0.
pub open spec fn format_tag(t: PixelType) -> u32 {
    match t {
        PixelType::Short16 => 0,
        PixelType::Float32 => 2,
    }
}

/// The sixteen bytes of a header.
pub open spec fn header_bytes(h: Header) -> Seq<u8> {
    u32_to_le(0) + u32_to_le(format_tag(h.pixel_type)) + u32_to_le(h.width) + u32_to_le(h.height)
}

/// The bytes of the first `count` samples of `s`.
pub open spec fn sample_bytes(s: Samples, count: nat) -> Seq<u8>
    recommends
        count <= s.len(),
{
    match s {
        Samples::U16(v) => u16s_to_le(v.take(count as int)),
        Samples::F32(v) => u32s_to_le(v.take(count as int)),
    }
}

/// The stream of a frame of `width` by `height` pixels whose samples, in
/// row-major order, are the first `width * height` of `s`.
pub open spec fn frame_bytes(width: u32, height: u32, s: Samples) -> Seq<u8>
    recommends
        width * height <= s.len(),
{
    header_bytes(Header { pixel_type: s.pixel_type(), width, height }) + sample_bytes(
        s,
        (width * height) as nat,
    )
}

/// Appends the two bytes of `n`.
fn push_u16(out: &mut Vec<u8>, n: u16)
    ensures
        final(out)@ == old(out)@ + u16_to_le(n),
{
    let mut word: [u8; 2] = [0u8, 0u8];
    endian::write_u16(&mut word, n);
    out.push(word[0]);
    out.push(word[1]);
    proof {
        assert(out@ =~= old(out)@ + u16_to_le(n));
    }
}

/// Appends the four bytes of `n`.
fn push_u32(out: &mut Vec<u8>, n: u32)
    ensures
        final(out)@ == old(out)@ + u32_to_le(n),
{
    let mut word: [u8; 4] = [0u8, 0u8, 0u8, 0u8];
    endian::write_u32(&mut word, n);
    out.push(word[0]);
    out.push(word[1]);
    out.push(word[2]);
    out.push(word[3]);
    proof {
        assert(out@ =~= old(out)@ + u32_to_le(n));
    }
}

/// Appends the header of a frame.
fn push_header(out: &mut Vec<u8>, pixel_type: PixelType, width: u32, height: u32)
    ensures
        final(out)@ == old(out)@ + header_bytes(Header { pixel_type, width, height }),
{
    let fmt1: u32 = 0;
    let fmt2: u32 = match pixel_type {
        PixelType::Short16 => 0,
        PixelType::Float32 => 2,
    };
    push_u32(out, fmt1);
    push_u32(out, fmt2);
    push_u32(out, width);
    push_u32(out, height);
    proof {
        assert(out@ =~= old(out)@ + header_bytes(Header { pixel_type, width, height }));
    }
}

/// The number of pixels of a frame, where `available` samples are enough
/// for it.
fn pixel_count(width: u32, height: u32, available: usize) -> (count: Option<usize>)
    ensures
        width * height <= available ==> count == Some((width * height) as usize),
        width * height > available ==> count.is_none(),
{
    assert(width * height <= 0xffff_ffff * 0xffff_ffff) by (nonlinear_arith)
        requires
            width <= 0xffff_ffff,
            height <= 0xffff_ffff,
    ;
    let wanted: u64 = width as u64 * height as u64;
    if wanted <= available as u64 {
        Some(wanted as usize)
    } else {
        None
    }
}

/// Serialises a frame of 16-bit samples: the header, then the first
/// `width * height` samples in row-major order. There is no stream for
/// fewer samples than that.
pub fn encode_u16(width: u32, height: u32, values: &[u16]) -> (out: Option<Vec<u8>>)
    ensures
        width * height <= values@.len() ==> (out matches Some(bytes) && bytes@ == frame_bytes(
            width,
            height,
            Samples::U16(values@),
        )),
        width * height > values@.len() ==> out.is_none(),
{
    let count: usize = match pixel_count(width, height, values.len()) {
        Some(n) => n,
        None => {
            return None;
        },
    };
    let mut out: Vec<u8> = Vec::new();
    push_header(&mut out, PixelType::Short16, width, height);
    let ghost head = out@;
    let mut i: usize = 0;
    while i < count
        invariant
            i <= count <= values@.len(),
            out@ == head + u16s_to_le(values@.take(i as int)),
        decreases count - i,
    {
        proof {
            lemma_u16s_to_le_push(values@.take(i as int), values@[i as int]);
            assert(values@.take(i + 1) =~= values@.take(i as int).push(values@[i as int]));
        }
        push_u16(&mut out, values[i]);
        i = i + 1;
    }
    Some(out)
}

/// Serialises a frame of 32-bit IEEE-754 samples, given by their bits: the
/// header, then the first `width * height` samples in row-major order.
/// There is no stream for fewer samples than that.
pub fn encode_f32(width: u32, height: u32, values: &[u32]) -> (out: Option<Vec<u8>>)
    ensures
        width * height <= values@.len() ==> (out matches Some(bytes) && bytes@ == frame_bytes(
            width,
            height,
            Samples::F32(values@),
        )),
        width * height > values@.len() ==> out.is_none(),
{
    let count: usize = match pixel_count(width, height, values.len()) {
        Some(n) => n,
        None => {
            return None;
        },
    };
    let mut out: Vec<u8> = Vec::new();
    push_header(&mut out, PixelType::Float32, width, height);
    let ghost head = out@;
    let mut i: usize = 0;
    while i < count
        invariant
            i <= count <= values@.len(),
            out@ == head + u32s_to_le(values@.take(i as int)),
        decreases count - i,
    {
        proof {
            lemma_u32s_to_le_push(values@.take(i as int), values@[i as int]);
            assert(values@.take(i + 1) =~= values@.take(i as int).push(values@[i as int]));
        }
        push_u32(&mut out, values[i]);
        i = i + 1;
    }
    Some(out)
}

/// Serialises a frame of `width` by `height` pixels: the header, then the
/// first `width * height` samples in row-major order, in the encoding that
/// the samples are tagged with. There is no stream for fewer samples than
/// that.
pub fn encode(width: u32, height: u32, samples: &DecodingResult) -> (out: Option<Vec<u8>>)
    ensures
        width * height <= samples@.len() ==> (out matches Some(bytes) && bytes@ == frame_bytes(
            width,
            height,
            samples@,
        )),
        width * height > samples@.len() ==> out.is_none(),
{
    match samples {
        DecodingResult::U16(values) => encode_u16(width, height, values.as_slice()),
        DecodingResult::F32(values) => encode_f32(width, height, values.as_slice()),
    }
}

impl<C: Container<u16>> ImageBuffer<GrayU16<u16>, C> {
    /// The stream of the image: the header of the 16-bit format, then the
    /// samples of the image's pixels.
    pub fn encode(&self) -> (bytes: Vec<u8>)
        requires
            self.wf(),
        ensures
            bytes@ == frame_bytes(self.spec_width(), self.spec_height(), Samples::U16(self@)),
    {
        proof {
            assert(self.spec_width() * self.spec_height() * 1 == self.spec_width()
                * self.spec_height()) by (nonlinear_arith);
        }
        encode_u16(self.width(), self.height(), self.deref()).unwrap()
    }
}

impl<C: Container<u32>> ImageBuffer<GrayF32<u32>, C> {
    /// The stream of the image: the header of the 32-bit IEEE-754 format,
    /// then the samples of the image's pixels.
    pub fn encode(&self) -> (bytes: Vec<u8>)
        requires
            self.wf(),
        ensures
            bytes@ == frame_bytes(self.spec_width(), self.spec_height(), Samples::F32(self@)),
    {
        proof {
            assert(self.spec_width() * self.spec_height() * 1 == self.spec_width()
                * self.spec_height()) by (nonlinear_arith);
        }
        encode_f32(self.width(), self.height(), self.deref()).unwrap()
    }
}

/// A stream that starts with the bytes of a header reads back as that
/// header, whatever follows.
pub proof fn lemma_header_round_trip(h: Header, rest: Seq<u8>)
    ensures
        header_bytes(h).len() == header_size(),
        header_at(header_bytes(h) + rest, 0) == Ok::<Header, crate::decoder::Defect>(h),
{
    let stream = header_bytes(h) + rest;
    lemma_u32_le_round_trip(0);
    lemma_u32_le_round_trip(format_tag(h.pixel_type));
    lemma_u32_le_round_trip(h.width);
    lemma_u32_le_round_trip(h.height);
    assert(stream.subrange(0, 4) =~= u32_to_le(0));
    assert(stream.subrange(4, 8) =~= u32_to_le(format_tag(h.pixel_type)));
    assert(stream.subrange(8, 12) =~= u32_to_le(h.width));
    assert(stream.subrange(12, 16) =~= u32_to_le(h.height));
}

/// Encoding then decoding gives back what was encoded: the stream of a
/// frame has exactly the bytes of a header and of `width * height` samples,
/// its header reads back as the frame's encoding, width and height, and the
/// samples behind the header read back as the frame's samples, bit for bit.
pub proof fn lemma_round_trip(width: u32, height: u32, s: Samples)
    requires
        s.len() == width * height,
    ensures
        ({
            let stream = frame_bytes(width, height, s);
            let h = Header { pixel_type: s.pixel_type(), width, height };
            &&& stream.len() == header_size() + s.len() * sample_size(s.pixel_type())
            &&& header_at(stream, 0) == Ok::<Header, crate::decoder::Defect>(h)
            &&& samples_at(stream, header_size() as int, s.pixel_type(), s.len()) == s
            &&& frame_at(stream, 0) == Ok::<(Header, Samples), crate::decoder::Defect>((h, s))
        }),
{
    let h = Header { pixel_type: s.pixel_type(), width, height };
    let count = (width * height) as nat;
    let body = sample_bytes(s, count);
    let stream = frame_bytes(width, height, s);
    lemma_header_round_trip(h, body);
    assert(stream == header_bytes(h) + body);
    assert(stream.len() == 16 + body.len());
    assert(stream.subrange(16, stream.len() as int) =~= body);
    match s {
        Samples::U16(v) => {
            assert(v.take(count as int) =~= v);
            lemma_u16s_le_round_trip(v, Seq::<u8>::empty());
            assert(u16s_to_le(v) + Seq::<u8>::empty() =~= u16s_to_le(v));
            assert(body == u16s_to_le(v));
            assert(s.len() * sample_size(s.pixel_type()) == 2 * v.len()) by (nonlinear_arith)
                requires
                    s.len() == v.len(),
                    sample_size(s.pixel_type()) == 2,
            ;
        },
        Samples::F32(v) => {
            assert(v.take(count as int) =~= v);
            lemma_u32s_le_round_trip(v, Seq::<u8>::empty());
            assert(u32s_to_le(v) + Seq::<u8>::empty() =~= u32s_to_le(v));
            assert(body == u32s_to_le(v));
            assert(s.len() * sample_size(s.pixel_type()) == 4 * v.len()) by (nonlinear_arith)
                requires
                    s.len() == v.len(),
                    sample_size(s.pixel_type()) == 4,
            ;
        },
    }
}

} // verus!
