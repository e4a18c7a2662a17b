use idp_image::{GrayF32, GrayU16, Pixel, PixelMut, PixelRef, PixelType, Primitive};

#[test]
fn pixel_types_of_the_variants() {
    assert_eq!(<GrayU16<u16> as Pixel>::pixel_type(), PixelType::Short16);
    assert_eq!(<GrayF32<u32> as Pixel>::pixel_type(), PixelType::Float32);
    assert_eq!(<GrayU16<u8> as Pixel>::pixel_type(), PixelType::Short16);
}

#[test]
fn variants_have_one_channel() {
    assert_eq!(<GrayU16<u16> as Pixel>::channel_count(), 1);
    assert_eq!(<GrayF32<u32> as Pixel>::channel_count(), 1);
}

#[test]
fn zero_of_every_primitive() {
    assert_eq!(<usize as Primitive>::zero(), 0);
    assert_eq!(<u8 as Primitive>::zero(), 0);
    assert_eq!(<u16 as Primitive>::zero(), 0);
    assert_eq!(<u32 as Primitive>::zero(), 0);
    assert_eq!(<u64 as Primitive>::zero(), 0);
    assert_eq!(<isize as Primitive>::zero(), 0);
    assert_eq!(<i8 as Primitive>::zero(), 0);
    assert_eq!(<i16 as Primitive>::zero(), 0);
    assert_eq!(<i32 as Primitive>::zero(), 0);
    assert_eq!(<i64 as Primitive>::zero(), 0);
    assert_eq!(f32::from_bits(<u32 as Primitive>::zero()), 0.0f32);
}

#[test]
fn values_and_values_mut_show_the_channel() {
    let mut p = GrayU16::new(7u16);
    assert_eq!(p.values(), &[7u16][..]);
    p.values_mut()[0] = 8;
    assert_eq!(p.value(), 8);
    assert_eq!(p, GrayU16 { data: [8] });
}

#[test]
fn from_channels_copies_the_samples() {
    let p: GrayF32<u32> = Pixel::from_channels(&[1.5f32.to_bits()]);
    assert_eq!(f32::from_bits(p.value()), 1.5);
}

#[test]
fn map_and_apply_transform_the_channel() {
    let p = GrayU16::new(20u16);
    let q = p.map(|v| v + 1);
    assert_eq!(q.value(), 21);
    assert_eq!(p.value(), 20);
    let mut r = p;
    r.apply(|v| v * 2);
    assert_eq!(r.value(), 40);
}

#[test]
fn map2_and_apply2_combine_channels_pairwise() {
    let p = GrayU16::new(20u16);
    let q = GrayU16::new(3u16);
    assert_eq!(p.map2(&q, |a, b| a - b).value(), 17);
    let mut r = p;
    r.apply2(&q, |a, b| a * b);
    assert_eq!(r.value(), 60);
    assert_eq!(q.value(), 3);
}

#[test]
fn from_slice_views_without_copying() {
    let store = [4u16, 5, 6];
    let view: PixelRef<GrayU16<u16>> = PixelRef::from_slice(&store[1..2]);
    assert_eq!(view.get(), GrayU16::new(5));
    assert_eq!(view.values(), &store[1..2]);
}

#[test]
fn pixels_are_indexed_by_channel() {
    let p = GrayU16::new(7u16);
    assert_eq!(p[0], 7);
    let q = GrayF32::new(2.5f32.to_bits());
    assert_eq!(f32::from_bits(q[0]), 2.5);
    let store = [4u16, 5, 6];
    let view: PixelRef<GrayU16<u16>> = PixelRef::from_slice(&store[2..3]);
    assert_eq!(view[0], 6);
}

#[test]
fn from_slice_mut_writes_through() {
    let mut store = [4u16, 5, 6];
    {
        let mut view: PixelMut<GrayU16<u16>> = PixelMut::from_slice_mut(&mut store[2..3]);
        assert_eq!(view.get().value(), 6);
        view.set(GrayU16::new(60));
    }
    assert_eq!(store, [4, 5, 60]);
}

#[test]
fn bounds_of_every_primitive() {
    assert_eq!(<usize as Primitive>::min_value(), usize::MIN);
    assert_eq!(<usize as Primitive>::max_value(), usize::MAX);
    assert_eq!(<u8 as Primitive>::min_value(), 0);
    assert_eq!(<u8 as Primitive>::max_value(), 255);
    assert_eq!(<u16 as Primitive>::min_value(), 0);
    assert_eq!(<u16 as Primitive>::max_value(), 65535);
    assert_eq!(<u32 as Primitive>::min_value(), 0);
    assert_eq!(<u32 as Primitive>::max_value(), 4294967295);
    assert_eq!(<u64 as Primitive>::min_value(), 0);
    assert_eq!(<u64 as Primitive>::max_value(), 18446744073709551615);
    assert_eq!(<isize as Primitive>::min_value(), isize::MIN);
    assert_eq!(<isize as Primitive>::max_value(), isize::MAX);
    assert_eq!(<i8 as Primitive>::min_value(), -128);
    assert_eq!(<i8 as Primitive>::max_value(), 127);
    assert_eq!(<i16 as Primitive>::min_value(), -32768);
    assert_eq!(<i16 as Primitive>::max_value(), 32767);
    assert_eq!(<i32 as Primitive>::min_value(), -2147483648);
    assert_eq!(<i32 as Primitive>::max_value(), 2147483647);
    assert_eq!(<i64 as Primitive>::min_value(), -9223372036854775808);
    assert_eq!(<i64 as Primitive>::max_value(), 9223372036854775807);
}
