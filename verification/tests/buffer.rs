use idp_image::{
    Gray16Image, GrayF32, GrayFloatImage, GrayU16, ImageBuffer, Pixel, PixelMut, PixelRef,
};

/// Tests if image buffers from slices work
#[test]
fn slice_buffer() {
    let data = [0u16; 9];
    let buf: ImageBuffer<GrayU16<u16>, _> = ImageBuffer::from_raw(3, 3, &data[..]).unwrap();
    assert_eq!(&*buf, &data[..])
}

#[test]
fn test_get_pixel() {
    let mut a: Gray16Image = ImageBuffer::new(10, 10);
    {
        let channels = <GrayU16<u16> as Pixel>::channel_count();
        let b = a.get_mut(channels * 10).unwrap();
        *b = 255;
    }
    assert_eq!(a.get_pixel(0, 1)[0], 255)
}

#[test]
fn test_mut_iter() {
    let mut a: Gray16Image = ImageBuffer::new(10, 10);
    {
        let mut pixels = a.pixels_mut();
        let mut val = pixels.next().unwrap();
        val.set(GrayU16::new(42));
    }
    assert_eq!(a.into_raw()[0], 42)
}

#[test]
fn new_buffer_is_all_zero() {
    let a: Gray16Image = ImageBuffer::new(4, 3);
    assert_eq!(a.dimensions(), (4, 3));
    assert_eq!(a.width(), 4);
    assert_eq!(a.height(), 3);
    assert_eq!(a.into_vec(), vec![0u16; 12]);
    let b: GrayFloatImage = ImageBuffer::new(2, 2);
    assert_eq!(b.into_raw(), vec![0u32; 4]);
    let c: ImageBuffer<GrayU16<i64>, Vec<i64>> = ImageBuffer::new(1, 5);
    assert_eq!(c.into_raw(), vec![0i64; 5]);
}

#[test]
fn new_buffer_of_no_pixels() {
    let a: Gray16Image = ImageBuffer::new(0, 7);
    assert_eq!(a.dimensions(), (0, 7));
    assert!(a.into_raw().is_empty());
    let mut b: Gray16Image = ImageBuffer::new(7, 0);
    assert!(b.pixels().next().is_none());
    assert!(b.enumerate_pixels().next().is_none());
    assert!(b.pixels_mut().next().is_none());
    assert!(b.enumerate_pixels_mut().next_back().is_none());
}

#[test]
fn adopting_nine_samples_as_three_by_three_succeeds() {
    let image: Option<Gray16Image> = ImageBuffer::from_vec(3, 3, vec![7u16; 9]);
    let image = image.unwrap();
    assert_eq!(image.dimensions(), (3, 3));
    assert_eq!(image.into_vec(), vec![7u16; 9]);
}

#[test]
fn adopting_three_samples_as_two_by_two_fails() {
    let image: Option<Gray16Image> = ImageBuffer::from_vec(2, 2, vec![0u16; 3]);
    assert!(image.is_none());
    let data = [0u32; 3];
    let view: Option<ImageBuffer<GrayF32<u32>, &[u32]>> = ImageBuffer::from_raw(2, 2, &data[..]);
    assert!(view.is_none());
}

#[test]
fn adopting_exactly_enough_and_more_than_enough() {
    for len in 0usize..12 {
        let image: Option<Gray16Image> = ImageBuffer::from_vec(2, 3, vec![1u16; len]);
        assert_eq!(image.is_some(), len >= 6);
    }
    let huge: Option<Gray16Image> = ImageBuffer::from_vec(u32::MAX, u32::MAX, vec![0u16; 16]);
    assert!(huge.is_none());
    let empty: Option<Gray16Image> = ImageBuffer::from_vec(0, u32::MAX, Vec::new());
    assert!(empty.is_some());
}

#[test]
fn adopted_store_keeps_its_extra_samples() {
    let image: Gray16Image = ImageBuffer::from_vec(2, 2, vec![1, 2, 3, 4, 5, 6]).unwrap();
    assert_eq!(image.pixels().next_back().unwrap().values(), &[4u16][..]);
    assert_eq!(image.into_raw(), vec![1, 2, 3, 4, 5, 6]);
}

#[test]
fn put_then_get_gives_the_pixel_back() {
    let mut image: Gray16Image = ImageBuffer::new(5, 4);
    for y in 0..4u32 {
        for x in 0..5u32 {
            let v = (100 * y + x) as u16;
            image.put_pixel(x, y, GrayU16::new(v));
            assert_eq!(image.get_pixel(x, y).get(), GrayU16::new(v));
        }
    }
    for y in 0..4u32 {
        for x in 0..5u32 {
            assert_eq!(image.get_pixel(x, y).get().value(), (100 * y + x) as u16);
        }
    }
}

#[test]
fn pixel_lies_at_row_times_width_plus_column() {
    let mut image: Gray16Image = ImageBuffer::new(7, 3);
    image.put_pixel(4, 2, GrayU16::new(9));
    let raw = image.into_raw();
    for (i, v) in raw.iter().enumerate() {
        assert_eq!(*v, if i == 2 * 7 + 4 { 9 } else { 0 });
    }
}

#[test]
fn get_pixel_mut_writes_in_place() {
    let mut image: Gray16Image = ImageBuffer::from_vec(3, 2, vec![1, 2, 3, 4, 5, 6]).unwrap();
    {
        let mut pixel: PixelMut<GrayU16<u16>> = image.get_pixel_mut(1, 1);
        assert_eq!(pixel.get().value(), 5);
        pixel.set(GrayU16::new(50));
        assert_eq!(pixel.get().value(), 50);
        pixel.samples[0] += 1;
    }
    assert_eq!(image.into_raw(), vec![1, 2, 3, 4, 51, 6]);
}

#[test]
fn buffer_over_a_borrowed_slice_is_written_in_place() {
    let mut data = [0u16; 6];
    {
        let mut image: ImageBuffer<GrayU16<u16>, &mut [u16]> =
            ImageBuffer::from_raw(2, 3, &mut data[..]).unwrap();
        image.put_pixel(1, 2, GrayU16::new(8));
        image[0] = 3;
        assert_eq!(image.get_pixel(0, 0).get().value(), 3);
    }
    assert_eq!(data, [3, 0, 0, 0, 0, 8]);
}

#[test]
fn from_pixel_fills_every_pixel() {
    let image: Gray16Image = ImageBuffer::from_pixel(3, 2, GrayU16::new(77));
    assert_eq!(image.dimensions(), (3, 2));
    assert_eq!(image.into_raw(), vec![77u16; 6]);
}

#[test]
fn from_fn_calls_with_column_and_row() {
    let image: Gray16Image =
        ImageBuffer::from_fn(4, 3, |x, y| GrayU16::new((10 * y + x) as u16));
    assert_eq!(
        image.into_raw(),
        vec![0, 1, 2, 3, 10, 11, 12, 13, 20, 21, 22, 23]
    );
}

#[test]
fn pixels_walk_in_storage_order() {
    let image: Gray16Image = ImageBuffer::from_vec(2, 2, vec![5, 6, 7, 8]).unwrap();
    let mut pixels = image.pixels();
    let mut seen = Vec::new();
    while let Some(p) = pixels.next() {
        let p: PixelRef<GrayU16<u16>> = p;
        seen.push(p.get().value());
    }
    assert_eq!(seen, vec![5, 6, 7, 8]);
    assert!(pixels.next().is_none());
    assert!(pixels.next_back().is_none());
}

#[test]
fn pixels_walk_backward_in_reverse_order() {
    let image: Gray16Image = ImageBuffer::from_vec(3, 1, vec![5, 6, 7]).unwrap();
    let mut pixels = image.pixels();
    assert_eq!(pixels.next_back().unwrap().get().value(), 7);
    assert_eq!(pixels.next().unwrap().get().value(), 5);
    assert_eq!(pixels.clone().next().unwrap().get().value(), 6);
    assert_eq!(pixels.next_back().unwrap().get().value(), 6);
    assert!(pixels.next_back().is_none());
    assert!(pixels.next().is_none());
}

#[test]
fn enumerate_gives_rising_coordinates_covering_each_cell_once() {
    let image: Gray16Image =
        ImageBuffer::from_fn(3, 4, |x, y| GrayU16::new((10 * y + x) as u16));
    let mut iter = image.enumerate_pixels();
    let mut seen = Vec::new();
    while let Some((x, y, p)) = iter.next() {
        assert_eq!(p.get().value(), (10 * y + x) as u16);
        seen.push((y, x));
    }
    assert_eq!(seen.len(), 12);
    for pair in seen.windows(2) {
        assert!(pair[0] < pair[1]);
    }
    let mut expected = Vec::new();
    for y in 0..4u32 {
        for x in 0..3u32 {
            expected.push((y, x));
        }
    }
    assert_eq!(seen, expected);
}

#[test]
fn enumerate_backward_is_the_reverse_of_forward() {
    let image: Gray16Image =
        ImageBuffer::from_fn(3, 2, |x, y| GrayU16::new((10 * y + x) as u16));
    let mut forward = Vec::new();
    let mut iter = image.enumerate_pixels();
    while let Some((x, y, p)) = iter.next() {
        forward.push((x, y, p.get().value()));
    }
    let mut backward = Vec::new();
    let mut iter = image.enumerate_pixels();
    while let Some((x, y, p)) = iter.next_back() {
        backward.push((x, y, p.get().value()));
    }
    backward.reverse();
    assert_eq!(forward, backward);
    assert_eq!(forward[4], (1, 1, 11));
}

#[test]
fn enumerate_from_both_ends_meets_in_the_middle() {
    let image: Gray16Image = ImageBuffer::from_vec(2, 2, vec![1, 2, 3, 4]).unwrap();
    let mut iter = image.enumerate_pixels();
    let first = iter.next().unwrap();
    assert_eq!((first.0, first.1, first.2.get().value()), (0, 0, 1));
    let last = iter.next_back().unwrap();
    assert_eq!((last.0, last.1, last.2.get().value()), (1, 1, 4));
    let second = iter.next().unwrap();
    assert_eq!((second.0, second.1, second.2.get().value()), (1, 0, 2));
    let third = iter.next().unwrap();
    assert_eq!((third.0, third.1, third.2.get().value()), (0, 1, 3));
    assert!(iter.next().is_none());
    assert!(iter.next_back().is_none());
}

#[test]
fn pixels_mut_backward_writes_the_last_pixel() {
    let mut image: Gray16Image = ImageBuffer::new(2, 2);
    {
        let mut pixels = image.pixels_mut();
        pixels.next_back().unwrap().set(GrayU16::new(4));
        pixels.next().unwrap().set(GrayU16::new(1));
        pixels.next().unwrap().set(GrayU16::new(2));
        pixels.next_back().unwrap().set(GrayU16::new(3));
        assert!(pixels.next().is_none());
    }
    assert_eq!(image.into_raw(), vec![1, 2, 3, 4]);
}

#[test]
fn enumerate_pixels_mut_writes_by_coordinate() {
    let mut image: Gray16Image = ImageBuffer::new(3, 2);
    {
        let mut iter = image.enumerate_pixels_mut();
        while let Some((x, y, mut p)) = iter.next() {
            p.set(GrayU16::new((10 * y + x) as u16));
        }
    }
    assert_eq!(&*image, &[0u16, 1, 2, 10, 11, 12][..]);
    {
        let mut iter = image.enumerate_pixels_mut();
        let (x, y, mut p) = iter.next_back().unwrap();
        assert_eq!((x, y), (2, 1));
        p.set(GrayU16::new(99));
    }
    assert_eq!(image.get_pixel(2, 1).get().value(), 99);
}

#[test]
fn cloned_buffer_is_independent() {
    let mut image: Gray16Image = ImageBuffer::from_vec(1, 2, vec![1, 2]).unwrap();
    let copy = image.clone();
    image.put_pixel(0, 0, GrayU16::new(9));
    assert_eq!(copy.dimensions(), (1, 2));
    assert_eq!(copy.into_raw(), vec![1, 2]);
    assert_eq!(image.into_raw(), vec![9, 2]);
}
