//! Reading IDP streams.
//!
//! A stream is a header of four little-endian 32-bit words (two format tags,
//! width, height) followed by `width * height` samples in row-major order,
//! 16-bit integers or 32-bit IEEE-754 numbers as the tags say. The decoder
//! works on a stream that is already in memory; 32-bit samples are carried by
//! their bit patterns.

use crate::color::PixelType;
use crate::endian;
use crate::endian::{u16_from_le, u16s_from_le, u32_from_le, u32s_from_le};
use vstd::prelude::*;
use vstd::slice::slice_subrange;
use vstd::string::StringExecFns;

verus! {

/// An I/O failure of the standard library, carried as it came.
#[verifier::external_type_specification]
#[verifier::external_body]
pub struct ExIoError(std::io::Error);

/// Why an image could not be read or written. The codec itself works on
/// streams in memory and reports format errors only; the I/O failures are
/// those of the code that moves the streams.
#[derive(Debug)]
pub enum ImageError {
    /// The stream is not a well-formed image.
    FormatError(String),
    /// Reading or writing the stream failed.
    IoError(std::io::Error),
}

impl ImageError {
    /// What kind of error this is, in two words.
    pub fn description(&self) -> (text: &'static str)
        ensures
            self is FormatError ==> text@ == "Format error"@,
            self is IoError ==> text@ == "IO error"@,
    {
        match self {
            ImageError::FormatError(_) => "Format error",
            ImageError::IoError(_) => "IO error",
        }
    }

    /// The I/O failure behind the error, if there is one.
    pub fn cause(&self) -> (source: Option<&std::io::Error>)
        ensures
            match self {
                ImageError::FormatError(_) => source.is_none(),
                ImageError::IoError(e) => source == Some(e),
            },
    {
        match self {
            ImageError::IoError(e) => Some(e),
            _ => None,
        }
    }

    /// The error as a line of text: for a format error its message behind
    /// `Format error: `, for an I/O failure what the failure says of itself.
    pub fn to_string(&self) -> (text: String)
        ensures
            match self {
                ImageError::FormatError(m) => text@ == "Format error: "@ + m@,
                ImageError::IoError(e) => vstd::string::to_string_from_display_ensures::<
                    std::io::Error,
                >(e, text),
            },
    {
        match self {
            ImageError::FormatError(m) => "Format error: ".to_owned().concat(m.as_str()),
            ImageError::IoError(e) => e.to_string(),
        }
    }
}

impl From<std::io::Error> for ImageError {
    fn from(err: std::io::Error) -> (e: ImageError) {
        ImageError::IoError(err)
    }
}

impl vstd::std_specs::convert::FromSpecImpl<std::io::Error> for ImageError {
    open spec fn obeys_from_spec() -> bool {
        true
    }

    open spec fn from_spec(err: std::io::Error) -> ImageError {
        ImageError::IoError(err)
    }
}

/// What the codec gives: a value, or the reason why there is none.
pub type ImageResult<T> = Result<T, ImageError>;

/// The samples of a decoded frame, tagged with their encoding.
pub enum DecodingResult {
    /// 16-bit unsigned samples.
    U16(Vec<u16>),
    /// 32-bit IEEE-754 samples, each held as its bit pattern.
    F32(Vec<u32>),
}

/// A store the decoder fills with samples, tagged with their encoding.
pub enum DecodingBuffer<'a> {
    /// Room for 16-bit unsigned samples.
    U16(&'a mut [u16]),
    /// Room for 32-bit IEEE-754 samples, each held as its bit pattern.
    F32(&'a mut [u32]),
}

impl<'a> DecodingBuffer<'a> {
    /// The encoding the store is tagged with.
    pub open spec fn pixel_type(&self) -> PixelType {
        match self {
            DecodingBuffer::U16(_) => PixelType::Short16,
            DecodingBuffer::F32(_) => PixelType::Float32,
        }
    }

    /// How many samples the store has room for.
    pub open spec fn len(&self) -> nat {
        match self {
            DecodingBuffer::U16(b) => b@.len(),
            DecodingBuffer::F32(b) => b@.len(),
        }
    }
}

/// The samples of a frame as plain sequences.
pub ghost enum Samples {
    /// 16-bit unsigned samples.
    U16(Seq<u16>),
    /// 32-bit IEEE-754 samples, each as its bit pattern.
    F32(Seq<u32>),
}

impl Samples {
    /// The encoding the samples are tagged with.
    pub open spec fn pixel_type(self) -> PixelType {
        match self {
            Samples::U16(_) => PixelType::Short16,
            Samples::F32(_) => PixelType::Float32,
        }
    }

    /// How many samples there are.
    pub open spec fn len(self) -> nat {
        match self {
            Samples::U16(s) => s.len(),
            Samples::F32(s) => s.len(),
        }
    }
}

impl View for DecodingResult {
    type V = Samples;

    open spec fn view(&self) -> Samples {
        match self {
            DecodingResult::U16(v) => Samples::U16(v@),
            DecodingResult::F32(v) => Samples::F32(v@),
        }
    }
}

/// What the head of a frame says of it.
#[derive(Clone, Copy, Debug, PartialEq, Eq, Structural)]
pub struct Header {
    /// The encoding of the samples.
    pub pixel_type: PixelType,
    /// The number of pixel columns.
    pub width: u32,
    /// The number of pixel rows.
    pub height: u32,
}

/// What can be wrong with a stream.
pub ghost enum Defect {
    /// The stream ends before the header or the samples do.
    Truncated,
    /// The format tags name no known encoding.
    UnknownFormat,
    /// The store to fill is tagged otherwise than the stream.
    Mismatch,
}

/// The text of the error reported for a defect.
pub open spec fn defect_message(d: Defect) -> Seq<char> {
    match d {
        Defect::Truncated => "Format error: "@,
        Defect::UnknownFormat => "Invalid IDP header found"@,
        Defect::Mismatch => "Pixel type is unsupported"@,
    }
}

/// `e` is the format error reported for `d`.
pub open spec fn reports(e: ImageError, d: Defect) -> bool {
    e matches ImageError::FormatError(m) && m@ == defect_message(d)
}

/// Bytes taken by one sample.
pub open spec fn sample_size(t: PixelType) -> nat {
    match t {
        PixelType::Short16 => 2,
        PixelType::Float32 => 4,
    }
}

/// Bytes taken by a header.
pub open spec fn header_size() -> nat {
    16
}

/// The encoding that a pair of format tags names, if any.
pub open spec fn format_of_tags(fmt1: u32, fmt2: u32) -> Option<PixelType> {
    if fmt1 == 0 && fmt2 == 0 {
        Some(PixelType::Short16)
    } else if fmt1 == 0 && fmt2 == 2 {
        Some(PixelType::Float32)
    } else {
        None
    }
}

/// The little-endian word that lies at `pos` in `stream`.
pub open spec fn word_at(stream: Seq<u8>, pos: int) -> u32
    recommends
        0 <= pos,
        pos + 4 <= stream.len(),
{
    u32_from_le(stream.subrange(pos, pos + 4))
}

/// The little-endian 16-bit number that lies at `pos` in `stream`.
pub open spec fn half_word_at(stream: Seq<u8>, pos: int) -> u16
    recommends
        0 <= pos,
        pos + 2 <= stream.len(),
{
    u16_from_le(stream.subrange(pos, pos + 2))
}

/// The header that lies at `pos` in `stream`. The tags are judged as soon as
/// they are there, before width and height are looked for.
pub open spec fn header_at(stream: Seq<u8>, pos: int) -> Result<Header, Defect>
    recommends
        0 <= pos <= stream.len(),
{
    if stream.len() - pos < 8 {
        Err(Defect::Truncated)
    } else {
        match format_of_tags(word_at(stream, pos), word_at(stream, pos + 4)) {
            None => Err(Defect::UnknownFormat),
            Some(t) => if stream.len() - pos < 16 {
                Err(Defect::Truncated)
            } else {
                Ok(
                    Header {
                        pixel_type: t,
                        width: word_at(stream, pos + 8),
                        height: word_at(stream, pos + 12),
                    },
                )
            },
        }
    }
}

/// The first `count` samples of encoding `t` that lie at `pos` in `stream`.
pub open spec fn samples_at(stream: Seq<u8>, pos: int, t: PixelType, count: nat) -> Samples
    recommends
        0 <= pos,
        pos + count * sample_size(t) <= stream.len(),
{
    let body = stream.subrange(pos, stream.len() as int);
    match t {
        PixelType::Short16 => Samples::U16(u16s_from_le(body, count)),
        PixelType::Float32 => Samples::F32(u32s_from_le(body, count)),
    }
}

/// The frame that lies at `pos` in `stream`: what its header says, and the
/// `width * height` samples behind the header.
pub open spec fn frame_at(stream: Seq<u8>, pos: int) -> Result<(Header, Samples), Defect>
    recommends
        0 <= pos <= stream.len(),
{
    match header_at(stream, pos) {
        Err(defect) => Err(defect),
        Ok(h) => {
            let count = (h.width * h.height) as nat;
            if pos + header_size() + count * sample_size(h.pixel_type) <= stream.len() {
                Ok((h, samples_at(stream, pos + header_size(), h.pixel_type, count)))
            } else {
                Err(Defect::Truncated)
            }
        },
    }
}

/// How many samples of encoding `t` a store with room for `room` gets from
/// the `left` bytes that a stream still has.
pub open spec fn samples_filled(t: PixelType, room: nat, left: nat) -> nat {
    if left / sample_size(t) < room {
        left / sample_size(t)
    } else {
        room
    }
}

/// The format error reported for a stream that ends too early.
fn truncated() -> (e: ImageError)
    ensures
        reports(e, Defect::Truncated),
{
    ImageError::FormatError("Format error: ".to_owned())
}

/// What every decoder offers.
pub trait ImageDecoder: Sized {
    /// Width and height of the image.
    fn dimensions(&mut self) -> ImageResult<(u32, u32)>;

    /// The encoding of the image's samples.
    fn pixel_type(&mut self) -> ImageResult<PixelType>;

    /// Decodes the whole image.
    fn read_image(&mut self) -> ImageResult<DecodingResult>;
}

/// A decoder of one IDP stream. It is made by reading the stream's header,
/// and then stands before the samples.
#[derive(Debug)]
pub struct IDPDecoder {
    reader: Vec<u8>,
    position: usize,
    width: u32,
    height: u32,
    pixel_type: PixelType,
}

impl IDPDecoder {
    #[verifier::type_invariant]
    spec fn within_stream(self) -> bool {
        self.position <= self.reader@.len()
    }

    /// The bytes of the stream.
    pub closed spec fn stream(&self) -> Seq<u8> {
        self.reader@
    }

    /// How many bytes of the stream have been read.
    pub closed spec fn position(&self) -> nat {
        self.position as nat
    }

    /// The header that was read last.
    pub closed spec fn header(&self) -> Header {
        Header { pixel_type: self.pixel_type, width: self.width, height: self.height }
    }

    /// Makes a decoder of the stream `r` and reads the header at its start.
    pub fn new(r: Vec<u8>) -> (res: ImageResult<IDPDecoder>)
        ensures
            match header_at(r@, 0) {
                Ok(h) => res matches Ok(d) && d.stream() == r@ && d.position() == header_size()
                    && d.header() == h,
                Err(defect) => res matches Err(e) && reports(e, defect),
            },
    {
        let decoder = IDPDecoder {
            reader: r,
            position: 0,
            width: 0,
            height: 0,
            pixel_type: PixelType::Short16,
        };
        decoder.init()
    }

    /// Reads the next word of the stream.
    fn read_u32(&mut self) -> (res: ImageResult<u32>)
        ensures
            final(self).stream() == old(self).stream(),
            final(self).header() == old(self).header(),
            old(self).stream().len() - old(self).position() >= 4 ==> res == Ok::<u32, ImageError>(
                word_at(old(self).stream(), old(self).position() as int),
            ) && final(self).position() == old(self).position() + 4,
            old(self).stream().len() - old(self).position() < 4 ==> (res matches Err(e) && reports(
                e,
                Defect::Truncated,
            )) && final(self).position() == old(self).position(),
    {
        proof {
            use_type_invariant(&*self);
        }
        if self.reader.len() - self.position < 4 {
            return Err(truncated());
        }
        let word: u32 = endian::read_u32(
            slice_subrange(self.reader.as_slice(), self.position, self.position + 4),
        );
        self.position = self.position + 4;
        Ok(word)
    }

    /// Reads the next 16-bit sample of the stream.
    fn read_u16(&mut self) -> (res: ImageResult<u16>)
        ensures
            final(self).stream() == old(self).stream(),
            final(self).header() == old(self).header(),
            old(self).stream().len() - old(self).position() >= 2 ==> res == Ok::<u16, ImageError>(
                half_word_at(old(self).stream(), old(self).position() as int),
            ) && final(self).position() == old(self).position() + 2,
            old(self).stream().len() - old(self).position() < 2 ==> (res matches Err(e) && reports(
                e,
                Defect::Truncated,
            )) && final(self).position() == old(self).position(),
    {
        proof {
            use_type_invariant(&*self);
        }
        if self.reader.len() - self.position < 2 {
            return Err(truncated());
        }
        let sample: u16 = endian::read_u16(
            slice_subrange(self.reader.as_slice(), self.position, self.position + 2),
        );
        self.position = self.position + 2;
        Ok(sample)
    }

    /// Reads the header that lies at the decoder's position. Where there is
    /// none the decoder is left as it was.
    fn read_header(&mut self) -> (res: ImageResult<()>)
        ensures
            final(self).stream() == old(self).stream(),
            match header_at(old(self).stream(), old(self).position() as int) {
                Ok(h) => res is Ok && final(self).position() == old(self).position() + header_size()
                    && final(self).header() == h,
                Err(defect) => (res matches Err(e) && reports(e, defect)) && final(self).position()
                    == old(self).position() && final(self).header() == old(self).header(),
            },
    {
        let start: usize = self.position;
        let fmt1: u32 = match self.read_u32() {
            Ok(w) => w,
            Err(e) => {
                return Err(e);
            },
        };
        let fmt2: u32 = match self.read_u32() {
            Ok(w) => w,
            Err(e) => {
                self.position = start;
                return Err(e);
            },
        };
        let pixel_type = if fmt1 == 0 && fmt2 == 0 {
            PixelType::Short16
        } else if fmt1 == 0 && fmt2 == 2 {
            PixelType::Float32
        } else {
            self.position = start;
            return Err(ImageError::FormatError("Invalid IDP header found".to_owned()));
        };
        let width: u32 = match self.read_u32() {
            Ok(w) => w,
            Err(e) => {
                self.position = start;
                return Err(e);
            },
        };
        let height: u32 = match self.read_u32() {
            Ok(w) => w,
            Err(e) => {
                self.position = start;
                return Err(e);
            },
        };
        self.pixel_type = pixel_type;
        self.width = width;
        self.height = height;
        Ok(())
    }

    /// Fills `decode_buffer` with the samples that lie at the decoder's
    /// position, one after another, until the store is full or the stream
    /// ends. A store tagged otherwise than the stream is left untouched.
    #[verifier::loop_isolation(false)]
    fn expand_strip(&mut self, decode_buffer: DecodingBuffer<'_>) -> (res: ImageResult<()>)
        ensures
            final(self).stream() == old(self).stream(),
            final(self).header() == old(self).header(),
            decode_buffer.pixel_type() != old(self).header().pixel_type ==> {
                &&& (res matches Err(e) && reports(e, Defect::Mismatch))
                &&& final(self).position() == old(self).position()
                &&& (decode_buffer matches DecodingBuffer::U16(b) ==> final(b)@ == b@)
                &&& (decode_buffer matches DecodingBuffer::F32(b) ==> final(b)@ == b@)
            },
            decode_buffer.pixel_type() == old(self).header().pixel_type ==> {
                let t = old(self).header().pixel_type;
                let left = (old(self).stream().len() - old(self).position()) as nat;
                let k = samples_filled(t, decode_buffer.len(), left);
                let body = old(self).stream().subrange(
                    old(self).position() as int,
                    old(self).stream().len() as int,
                );
                &&& final(self).position() == old(self).position() + k * sample_size(t)
                &&& (k == decode_buffer.len() ==> res is Ok)
                &&& (k < decode_buffer.len() ==> (res matches Err(e) && reports(
                    e,
                    Defect::Truncated,
                )))
                &&& (decode_buffer matches DecodingBuffer::U16(b) ==> final(b)@ == u16s_from_le(
                    body,
                    k,
                ) + b@.subrange(k as int, b@.len() as int))
                &&& (decode_buffer matches DecodingBuffer::F32(b) ==> final(b)@ == u32s_from_le(
                    body,
                    k,
                ) + b@.subrange(k as int, b@.len() as int))
            },
    {
        proof {
            use_type_invariant(&*self);
        }
        let ghost stream = self.reader@;
        let ghost start = self.position as int;
        let ghost body = stream.subrange(start, stream.len() as int);
        match (self.pixel_type, decode_buffer) {
            (PixelType::Short16, DecodingBuffer::U16(buffer)) => {
                let ghost before = buffer@;
                let len: usize = buffer.len();
                let mut i: usize = 0;
                while i < len
                    invariant
                        i <= len,
                        len == before.len(),
                        buffer@.len() == len,
                        self.reader@ == stream,
                        self.header() == old(self).header(),
                        self.position == start + 2 * i,
                        self.position <= stream.len(),
                        0 <= start <= stream.len(),
                        body == stream.subrange(start, stream.len() as int),
                        forall|j: int| 0 <= j < i ==> buffer@[j] == u16_from_le(
                            #[trigger] body.subrange(2 * j, 2 * j + 2),
                        ),
                        forall|j: int| i <= j < len ==> buffer@[j] == before[j],
                    decreases len - i,
                {
                    match self.read_u16() {
                        Ok(sample) => {
                            proof {
                                assert(stream.subrange(start + 2 * i, start + 2 * i + 2)
                                    =~= body.subrange(2 * i, 2 * i + 2));
                            }
                            buffer[i] = sample;
                        },
                        Err(e) => {
                            proof {
                                let left = (stream.len() - start) as nat;
                                assert(left / 2 == i);
                                assert(samples_filled(PixelType::Short16, len as nat, left) == i);
                                assert(i * sample_size(PixelType::Short16) == 2 * i);
                                assert(buffer@ =~= u16s_from_le(body, i as nat) + before.subrange(
                                    i as int,
                                    len as int,
                                ));
                            }
                            return Err(e);
                        },
                    }
                    i = i + 1;
                }
                proof {
                    let left = (stream.len() - start) as nat;
                    assert(left / 2 >= len);
                    assert(samples_filled(PixelType::Short16, len as nat, left) == len);
                    assert(len * sample_size(PixelType::Short16) == 2 * len);
                    assert(buffer@ =~= u16s_from_le(body, len as nat) + before.subrange(
                        len as int,
                        len as int,
                    ));
                }
                Ok(())
            },
            (PixelType::Float32, DecodingBuffer::F32(buffer)) => {
                let ghost before = buffer@;
                let len: usize = buffer.len();
                let mut i: usize = 0;
                while i < len
                    invariant
                        i <= len,
                        len == before.len(),
                        buffer@.len() == len,
                        self.reader@ == stream,
                        self.header() == old(self).header(),
                        self.position == start + 4 * i,
                        self.position <= stream.len(),
                        0 <= start <= stream.len(),
                        body == stream.subrange(start, stream.len() as int),
                        forall|j: int| 0 <= j < i ==> buffer@[j] == u32_from_le(
                            #[trigger] body.subrange(4 * j, 4 * j + 4),
                        ),
                        forall|j: int| i <= j < len ==> buffer@[j] == before[j],
                    decreases len - i,
                {
                    match self.read_u32() {
                        Ok(sample) => {
                            proof {
                                assert(stream.subrange(start + 4 * i, start + 4 * i + 4)
                                    =~= body.subrange(4 * i, 4 * i + 4));
                            }
                            buffer[i] = sample;
                        },
                        Err(e) => {
                            proof {
                                let left = (stream.len() - start) as nat;
                                assert(left / 4 == i) by (nonlinear_arith)
                                    requires
                                        0 <= left - 4 * i < 4,
                                ;
                                assert(samples_filled(PixelType::Float32, len as nat, left) == i);
                                assert(i * sample_size(PixelType::Float32) == 4 * i);
                                assert(buffer@ =~= u32s_from_le(body, i as nat) + before.subrange(
                                    i as int,
                                    len as int,
                                ));
                            }
                            return Err(e);
                        },
                    }
                    i = i + 1;
                }
                proof {
                    let left = (stream.len() - start) as nat;
                    assert(left / 4 >= len) by (nonlinear_arith)
                        requires
                            left >= 4 * len,
                    ;
                    assert(samples_filled(PixelType::Float32, len as nat, left) == len);
                    assert(len * sample_size(PixelType::Float32) == 4 * len);
                    assert(buffer@ =~= u32s_from_le(body, len as nat) + before.subrange(
                        len as int,
                        len as int,
                    ));
                }
                Ok(())
            },
            (_, _) => Err(ImageError::FormatError("Pixel type is unsupported".to_owned())),
        }
    }

    /// Readies the decoder: reads the header at its position.
    pub fn init(self) -> (res: ImageResult<IDPDecoder>)
        ensures
            match header_at(self.stream(), self.position() as int) {
                Ok(h) => res matches Ok(d) && d.stream() == self.stream() && d.position()
                    == self.position() + header_size() && d.header() == h,
                Err(defect) => res matches Err(e) && reports(e, defect),
            },
    {
        self.next_image()
    }

    /// Turns to the frame whose header lies at the decoder's position.
    pub fn next_image(self) -> (res: ImageResult<IDPDecoder>)
        ensures
            match header_at(self.stream(), self.position() as int) {
                Ok(h) => res matches Ok(d) && d.stream() == self.stream() && d.position()
                    == self.position() + header_size() && d.header() == h,
                Err(defect) => res matches Err(e) && reports(e, defect),
            },
    {
        let mut decoder = self;
        match decoder.read_header() {
            Ok(()) => Ok(decoder),
            Err(e) => Err(e),
        }
    }
}

impl ImageDecoder for IDPDecoder {
    fn dimensions(&mut self) -> (res: ImageResult<(u32, u32)>)
        ensures
            *final(self) == *old(self),
            res == Ok::<(u32, u32), ImageError>(
                (old(self).header().width, old(self).header().height),
            ),
    {
        Ok((self.width, self.height))
    }

    fn pixel_type(&mut self) -> (res: ImageResult<PixelType>)
        ensures
            *final(self) == *old(self),
            res == Ok::<PixelType, ImageError>(old(self).header().pixel_type),
    {
        match self.pixel_type {
            PixelType::Short16 => Ok(PixelType::Short16),
            PixelType::Float32 => Ok(PixelType::Float32),
        }
    }

    /// Decodes the `width * height` samples that lie at the decoder's
    /// position. Where the stream holds fewer, nothing is read.
    fn read_image(&mut self) -> (res: ImageResult<DecodingResult>)
        ensures
            final(self).stream() == old(self).stream(),
            final(self).header() == old(self).header(),
            ({
                let h = old(self).header();
                let count = (h.width * h.height) as nat;
                let need = count * sample_size(h.pixel_type);
                if old(self).position() + need <= old(self).stream().len() {
                    &&& res matches Ok(r)
                    &&& r@ == samples_at(
                        old(self).stream(),
                        old(self).position() as int,
                        h.pixel_type,
                        count,
                    )
                    &&& final(self).position() == old(self).position() + need
                } else {
                    &&& res matches Err(e)
                    &&& reports(e, Defect::Truncated)
                    &&& final(self).position() == old(self).position()
                }
            }),
    {
        proof {
            use_type_invariant(&*self);
        }
        let left: usize = self.reader.len() - self.position;
        let size: u128 = match self.pixel_type {
            PixelType::Short16 => 2,
            PixelType::Float32 => 4,
        };
        assert(self.width * self.height <= 0xffff_ffff * 0xffff_ffff) by (nonlinear_arith)
            requires
                self.width <= 0xffff_ffff,
                self.height <= 0xffff_ffff,
        ;
        let count: u128 = self.width as u128 * self.height as u128;
        let need: u128 = count * size;
        if need > left as u128 {
            return Err(truncated());
        }
        let number_of_pixels: usize = count as usize;
        let ghost body = self.reader@.subrange(self.position as int, self.reader@.len() as int);
        proof {
            let unit = sample_size(self.pixel_type);
            assert(left as nat / unit >= number_of_pixels) by (nonlinear_arith)
                requires
                    number_of_pixels * unit <= left,
                    unit > 0,
            ;
        }
        match self.pixel_type {
            PixelType::Short16 => {
                let mut buffer: Vec<u16> = vec![0u16; number_of_pixels];
                let filled = self.expand_strip(DecodingBuffer::U16(buffer.as_mut_slice()));
                proof {
                    assert(buffer@ =~= u16s_from_le(body, number_of_pixels as nat));
                }
                match filled {
                    Ok(()) => Ok(DecodingResult::U16(buffer)),
                    Err(e) => Err(e),
                }
            },
            PixelType::Float32 => {
                let mut buffer: Vec<u32> = vec![0u32; number_of_pixels];
                let filled = self.expand_strip(DecodingBuffer::F32(buffer.as_mut_slice()));
                proof {
                    assert(buffer@ =~= u32s_from_le(body, number_of_pixels as nat));
                }
                match filled {
                    Ok(()) => Ok(DecodingResult::F32(buffer)),
                    Err(e) => Err(e),
                }
            },
        }
    }
}

/// Decodes the frame at the start of `stream`: reads the header, then the
/// samples it announces.
pub fn decode(stream: Vec<u8>) -> (res: ImageResult<(Header, DecodingResult)>)
    ensures
        match frame_at(stream@, 0) {
            Ok(frame) => res matches Ok(read) && read.0 == frame.0 && read.1@ == frame.1,
            Err(defect) => res matches Err(e) && reports(e, defect),
        },
{
    let mut decoder = match IDPDecoder::new(stream) {
        Ok(decoder) => decoder,
        Err(e) => {
            return Err(e);
        },
    };
    let (width, height) = match decoder.dimensions() {
        Ok(dimensions) => dimensions,
        Err(e) => {
            return Err(e);
        },
    };
    let pixel_type = match decoder.pixel_type() {
        Ok(pixel_type) => pixel_type,
        Err(e) => {
            return Err(e);
        },
    };
    match decoder.read_image() {
        Ok(samples) => Ok((Header { pixel_type, width, height }, samples)),
        Err(e) => Err(e),
    }
}

} // verus!
