use idp_image::{
    encode, encode_f32, encode_u16, DecodingResult, Gray16Image, GrayF32, GrayFloatImage, GrayU16,
    Header, IDPDecoder, ImageBuffer, ImageDecoder, ImageError, PixelType,
};

fn header(fmt1: u32, fmt2: u32, width: u32, height: u32) -> Vec<u8> {
    let mut bytes = Vec::new();
    bytes.extend_from_slice(&fmt1.to_le_bytes());
    bytes.extend_from_slice(&fmt2.to_le_bytes());
    bytes.extend_from_slice(&width.to_le_bytes());
    bytes.extend_from_slice(&height.to_le_bytes());
    bytes
}

fn decode(stream: Vec<u8>) -> Result<(u32, u32, PixelType, DecodingResult), ImageError> {
    let mut decoder = IDPDecoder::new(stream)?;
    let (width, height) = decoder.dimensions()?;
    let pixel_type = decoder.pixel_type()?;
    let samples = decoder.read_image()?;
    Ok((width, height, pixel_type, samples))
}

fn format_message(e: ImageError) -> String {
    match e {
        ImageError::FormatError(m) => m,
        ImageError::IoError(e) => panic!("an I/O error instead of a format error: {}", e),
    }
}

#[test]
fn float32_grid_round_trips() {
    let (columns, rows) = (20u32, 10u32);
    let mut samples = Vec::new();
    for row in 0..rows {
        for col in 0..columns {
            samples.push(((col * 100 + row) as f32).to_bits());
        }
    }
    let stream = encode(columns, rows, &DecodingResult::F32(samples)).unwrap();
    assert_eq!(stream.len(), 16 + 20 * 10 * 4);
    let (width, height, pixel_type, decoded) = decode(stream).unwrap();
    assert_eq!((width, height), (20, 10));
    assert_eq!(pixel_type, PixelType::Float32);
    let decoded = match decoded {
        DecodingResult::F32(v) => v,
        DecodingResult::U16(_) => panic!("16-bit samples from a 32-bit stream"),
    };
    let image: GrayFloatImage = ImageBuffer::from_vec(width, height, decoded).unwrap();
    for row in 0..rows {
        for col in 0..columns {
            let value = f32::from_bits(image.get_pixel(col, row).get().value());
            assert_eq!(value, (col * 100 + row) as f32);
        }
    }
}

#[test]
fn short16_grid_round_trips() {
    let (columns, rows) = (20u32, 10u32);
    let mut samples = Vec::new();
    for row in 0..rows {
        for col in 0..columns {
            samples.push(((col * 20 + row) % 65536) as u16);
        }
    }
    let stream = encode(columns, rows, &DecodingResult::U16(samples.clone())).unwrap();
    assert_eq!(stream.len(), 16 + 20 * 10 * 2);
    let (width, height, pixel_type, decoded) = decode(stream).unwrap();
    assert_eq!((width, height), (20, 10));
    assert_eq!(pixel_type, PixelType::Short16);
    let decoded = match decoded {
        DecodingResult::U16(v) => v,
        DecodingResult::F32(_) => panic!("32-bit samples from a 16-bit stream"),
    };
    assert_eq!(decoded, samples);
    let image: Gray16Image = ImageBuffer::from_vec(width, height, decoded).unwrap();
    for row in 0..rows {
        for col in 0..columns {
            assert_eq!(image.get_pixel(col, row).get().value(), (col * 20 + row) as u16);
        }
    }
}

#[test]
fn unknown_format_tag_is_a_format_error() {
    for fmt2 in [1u32, 3, 4, 0x0200, u32::MAX] {
        let mut stream = header(0, fmt2, 2, 2);
        stream.extend_from_slice(&[0u8; 16]);
        match IDPDecoder::new(stream) {
            Err(ImageError::FormatError(m)) => assert_eq!(m, "Invalid IDP header found"),
            Err(ImageError::IoError(e)) => panic!("an I/O error: {}", e),
            Ok(_) => panic!("a decoder for an unknown format"),
        }
    }
}

#[test]
fn nonzero_first_tag_is_a_format_error() {
    for fmt2 in [0u32, 2] {
        let stream = header(1, fmt2, 1, 1);
        let e = IDPDecoder::new(stream).err().unwrap();
        assert_eq!(format_message(e), "Invalid IDP header found");
    }
}

#[test]
fn unknown_tags_are_judged_before_width_and_height_are_read() {
    let stream = header(0, 7, 1, 1)[..8].to_vec();
    let e = IDPDecoder::new(stream).err().unwrap();
    assert_eq!(format_message(e), "Invalid IDP header found");
}

#[test]
fn truncated_header_is_a_format_error() {
    let whole = header(0, 2, 3, 4);
    for len in 0..16 {
        let e = IDPDecoder::new(whole[..len].to_vec()).err().unwrap();
        assert_eq!(format_message(e), "Format error: ");
    }
    assert!(IDPDecoder::new(whole).is_ok());
}

#[test]
fn truncated_samples_are_a_format_error() {
    let full = encode_u16(3, 2, &[1, 2, 3, 4, 5, 6]).unwrap();
    for len in 16..full.len() {
        let mut decoder = IDPDecoder::new(full[..len].to_vec()).unwrap();
        assert_eq!(decoder.dimensions().unwrap(), (3, 2));
        let e = decoder.read_image().err().unwrap();
        assert_eq!(format_message(e), "Format error: ");
    }
    let full = encode_f32(1, 2, &[7, 8]).unwrap();
    for len in 16..full.len() {
        let mut decoder = IDPDecoder::new(full[..len].to_vec()).unwrap();
        let e = decoder.read_image().err().unwrap();
        assert_eq!(format_message(e), "Format error: ");
    }
}

#[test]
fn huge_dimensions_without_samples_are_a_format_error() {
    let stream = header(0, 2, u32::MAX, u32::MAX);
    let mut decoder = IDPDecoder::new(stream).unwrap();
    assert_eq!(decoder.dimensions().unwrap(), (u32::MAX, u32::MAX));
    assert_eq!(decoder.pixel_type().unwrap(), PixelType::Float32);
    let e = decoder.read_image().err().unwrap();
    assert_eq!(format_message(e), "Format error: ");
}

#[test]
fn header_is_four_little_endian_words() {
    let stream = encode_u16(0x0102_0304, 0, &[]).unwrap();
    assert_eq!(
        stream,
        vec![0, 0, 0, 0, 0, 0, 0, 0, 0x04, 0x03, 0x02, 0x01, 0, 0, 0, 0]
    );
    let stream = encode_f32(0, 0x0a0b_0c0d, &[]).unwrap();
    assert_eq!(
        stream,
        vec![0, 0, 0, 0, 2, 0, 0, 0, 0, 0, 0, 0, 0x0d, 0x0c, 0x0b, 0x0a]
    );
}

#[test]
fn samples_are_little_endian() {
    let stream = encode_u16(2, 1, &[0x1234, 0xfffe]).unwrap();
    assert_eq!(&stream[16..], &[0x34, 0x12, 0xfe, 0xff][..]);
    let stream = encode_f32(1, 1, &[1.0f32.to_bits()]).unwrap();
    assert_eq!(&stream[16..], &[0x00, 0x00, 0x80, 0x3f][..]);
    let stream = encode_f32(1, 1, &[0x0102_0304]).unwrap();
    assert_eq!(&stream[16..], &[0x04, 0x03, 0x02, 0x01][..]);
}

#[test]
fn decoder_reads_little_endian_words() {
    let mut stream = vec![0, 0, 0, 0, 0, 0, 0, 0, 2, 1, 0, 0, 1, 0, 0, 0];
    stream.extend(std::iter::repeat(0u8).take(2 * 258).enumerate().map(|(i, _)| i as u8));
    let mut decoder = IDPDecoder::new(stream).unwrap();
    assert_eq!(decoder.dimensions().unwrap(), (258, 1));
    assert_eq!(decoder.pixel_type().unwrap(), PixelType::Short16);
    match decoder.read_image().unwrap() {
        DecodingResult::U16(v) => {
            assert_eq!(v.len(), 258);
            assert_eq!(v[0], 0x0100);
            assert_eq!(v[1], 0x0302);
            assert_eq!(v[127], 0xfffe);
        }
        DecodingResult::F32(_) => panic!("32-bit samples from a 16-bit stream"),
    }
    let mut stream = header(0, 2, 1, 1);
    stream.extend_from_slice(&[0x78, 0x56, 0x34, 0x12]);
    let mut decoder = IDPDecoder::new(stream).unwrap();
    match decoder.read_image().unwrap() {
        DecodingResult::F32(v) => assert_eq!(v, vec![0x1234_5678]),
        DecodingResult::U16(_) => panic!("16-bit samples from a 32-bit stream"),
    }
}

#[test]
fn round_trip_is_bit_exact_for_floats() {
    let samples = vec![
        f32::NAN.to_bits(),
        0x7fc0_0001,
        0xffc1_2345,
        f32::INFINITY.to_bits(),
        f32::NEG_INFINITY.to_bits(),
        (-0.0f32).to_bits(),
        0.0f32.to_bits(),
        f32::MIN_POSITIVE.to_bits(),
        1,
        f32::MAX.to_bits(),
        u32::MAX,
        0.1f32.to_bits(),
    ];
    let stream = encode(4, 3, &DecodingResult::F32(samples.clone())).unwrap();
    let (width, height, pixel_type, decoded) = decode(stream).unwrap();
    assert_eq!((width, height, pixel_type), (4, 3, PixelType::Float32));
    match decoded {
        DecodingResult::F32(v) => assert_eq!(v, samples),
        DecodingResult::U16(_) => panic!("16-bit samples from a 32-bit stream"),
    }
}

#[test]
fn round_trip_for_many_shapes() {
    let shapes = [(1u32, 1u32), (1, 7), (7, 1), (3, 5), (16, 16), (0, 0), (0, 3), (3, 0)];
    for (width, height) in shapes {
        let count = (width * height) as usize;
        let shorts: Vec<u16> = (0..count).map(|i| (i * 7919 % 65536) as u16).collect();
        let stream = encode(width, height, &DecodingResult::U16(shorts.clone())).unwrap();
        let (w, h, t, decoded) = decode(stream).unwrap();
        assert_eq!((w, h, t), (width, height, PixelType::Short16));
        match decoded {
            DecodingResult::U16(v) => assert_eq!(v, shorts),
            DecodingResult::F32(_) => panic!("32-bit samples from a 16-bit stream"),
        }
        let floats: Vec<u32> = (0..count).map(|i| (i as f32 * 0.25 - 3.0).to_bits()).collect();
        let stream = encode(width, height, &DecodingResult::F32(floats.clone())).unwrap();
        let (w, h, t, decoded) = decode(stream).unwrap();
        assert_eq!((w, h, t), (width, height, PixelType::Float32));
        match decoded {
            DecodingResult::F32(v) => assert_eq!(v, floats),
            DecodingResult::U16(_) => panic!("16-bit samples from a 32-bit stream"),
        }
    }
}

#[test]
fn encode_needs_width_times_height_samples() {
    assert!(encode(2, 2, &DecodingResult::U16(vec![1, 2, 3])).is_none());
    assert!(encode(2, 2, &DecodingResult::F32(vec![1, 2, 3])).is_none());
    assert!(encode_u16(u32::MAX, u32::MAX, &[0; 8]).is_none());
    assert!(encode_f32(1, 1, &[]).is_none());
}

#[test]
fn encode_writes_only_the_first_width_times_height_samples() {
    let stream = encode(1, 2, &DecodingResult::U16(vec![1, 2, 3, 4])).unwrap();
    assert_eq!(stream.len(), 16 + 4);
    assert_eq!(&stream[16..], &[1, 0, 2, 0][..]);
}

#[test]
fn decoder_leaves_bytes_behind_the_frame_alone() {
    let mut stream = encode_u16(1, 1, &[0xabcd]).unwrap();
    stream.extend_from_slice(&[9, 9, 9]);
    let mut decoder = IDPDecoder::new(stream).unwrap();
    match decoder.read_image().unwrap() {
        DecodingResult::U16(v) => assert_eq!(v, vec![0xabcd]),
        DecodingResult::F32(_) => panic!("32-bit samples from a 16-bit stream"),
    }
    match decoder.read_image().unwrap() {
        DecodingResult::U16(v) => assert_eq!(v, vec![0x0909]),
        DecodingResult::F32(_) => panic!("32-bit samples from a 16-bit stream"),
    }
    let e = decoder.read_image().err().unwrap();
    assert_eq!(format_message(e), "Format error: ");
}

#[test]
fn next_image_reads_a_header_where_the_decoder_stands() {
    let mut stream = encode_u16(1, 1, &[5]).unwrap();
    stream.extend(encode_f32(2, 1, &[6, 7]).unwrap());
    let mut decoder = IDPDecoder::new(stream).unwrap();
    assert_eq!(decoder.dimensions().unwrap(), (1, 1));
    decoder.read_image().unwrap();
    let mut decoder = decoder.next_image().unwrap();
    assert_eq!(decoder.dimensions().unwrap(), (2, 1));
    assert_eq!(decoder.pixel_type().unwrap(), PixelType::Float32);
    match decoder.read_image().unwrap() {
        DecodingResult::F32(v) => assert_eq!(v, vec![6, 7]),
        DecodingResult::U16(_) => panic!("16-bit samples from a 32-bit stream"),
    }
    let e = decoder.init().err().unwrap();
    assert_eq!(format_message(e), "Format error: ");
}

#[test]
fn image_buffers_encode_themselves() {
    let image: Gray16Image = ImageBuffer::from_fn(2, 2, |x, y| GrayU16::new((x + 2 * y) as u16));
    let stream = image.encode();
    assert_eq!(stream, encode_u16(2, 2, &[0, 1, 2, 3]).unwrap());
    let image: GrayFloatImage =
        ImageBuffer::from_fn(2, 1, |x, _| GrayF32::new((x as f32 + 0.5).to_bits()));
    let stream = image.encode();
    let (w, h, t, decoded) = decode(stream).unwrap();
    assert_eq!((w, h, t), (2, 1, PixelType::Float32));
    match decoded {
        DecodingResult::F32(v) => {
            assert_eq!(f32::from_bits(v[0]), 0.5);
            assert_eq!(f32::from_bits(v[1]), 1.5);
        }
        DecodingResult::U16(_) => panic!("16-bit samples from a 32-bit stream"),
    }
}

#[test]
fn image_buffer_over_a_long_store_encodes_its_pixels_only() {
    let image: Gray16Image = ImageBuffer::from_vec(1, 2, vec![1, 2, 3]).unwrap();
    assert_eq!(image.encode(), encode_u16(1, 2, &[1, 2]).unwrap());
}

#[test]
fn error_descriptions_and_text() {
    let e = ImageError::FormatError("bad tags".to_string());
    assert_eq!(e.description(), "Format error");
    assert_eq!(e.to_string(), "Format error: bad tags");
    assert!(e.cause().is_none());
    let io = std::io::Error::new(std::io::ErrorKind::UnexpectedEof, "short read");
    let text = io.to_string();
    let e = ImageError::from(io);
    assert_eq!(e.description(), "IO error");
    assert_eq!(e.to_string(), text);
    assert_eq!(e.cause().unwrap().kind(), std::io::ErrorKind::UnexpectedEof);
    assert!(matches!(e, ImageError::IoError(_)));
}

#[test]
fn decode_reads_header_and_samples() {
    let stream = encode_u16(2, 1, &[0x0102, 0x0304]).unwrap();
    let (header, samples) = idp_image::decode(stream).unwrap();
    assert_eq!(header, Header { pixel_type: PixelType::Short16, width: 2, height: 1 });
    match samples {
        DecodingResult::U16(v) => assert_eq!(v, vec![0x0102, 0x0304]),
        DecodingResult::F32(_) => panic!("32-bit samples from a 16-bit stream"),
    }
    let stream = encode_f32(1, 1, &[7]).unwrap();
    let (header, samples) = idp_image::decode(stream).unwrap();
    assert_eq!(header, Header { pixel_type: PixelType::Float32, width: 1, height: 1 });
    match samples {
        DecodingResult::F32(v) => assert_eq!(v, vec![7]),
        DecodingResult::U16(_) => panic!("16-bit samples from a 32-bit stream"),
    }
}

#[test]
fn decode_reports_each_defect() {
    let e = idp_image::decode(Vec::new()).err().unwrap();
    assert_eq!(format_message(e), "Format error: ");
    let e = idp_image::decode(header(0, 5, 1, 1)).err().unwrap();
    assert_eq!(format_message(e), "Invalid IDP header found");
    let e = idp_image::decode(header(0, 0, 1, 1)).err().unwrap();
    assert_eq!(format_message(e), "Format error: ");
    let mut stream = header(0, 0, 1, 1);
    stream.push(1);
    let e = idp_image::decode(stream).err().unwrap();
    assert_eq!(format_message(e), "Format error: ");
}
