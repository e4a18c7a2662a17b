use idp_image::{
    copy_from, GenericImage, Gray16Image, GrayU16, ImageBuffer, Pixels, SubImage,
};

fn grid(width: u32, height: u32) -> Gray16Image {
    ImageBuffer::from_fn(width, height, |x, y| GrayU16::new((10 * y + x) as u16))
}

#[test]
fn generic_dimensions_and_bounds_of_a_buffer() {
    let image = grid(4, 3);
    assert_eq!(GenericImage::dimensions(&image), (4, 3));
    assert_eq!(GenericImage::width(&image), 4);
    assert_eq!(GenericImage::height(&image), 3);
    assert_eq!(image.bounds(), (0, 0, 4, 3));
}

#[test]
fn in_bounds_checks_against_the_bounds() {
    let mut image = grid(4, 3);
    assert!(image.in_bounds(0, 0));
    assert!(image.in_bounds(3, 2));
    assert!(!image.in_bounds(4, 2));
    assert!(!image.in_bounds(3, 3));
    assert!(!image.in_bounds(u32::MAX, u32::MAX));
    let view = image.sub_image(1, 1, 2, 2);
    assert_eq!(view.bounds(), (1, 1, 2, 2));
    assert!(!view.in_bounds(0, 0));
    assert!(view.in_bounds(1, 1));
    assert!(view.in_bounds(2, 2));
    assert!(!view.in_bounds(3, 2));
    assert!(!view.in_bounds(2, 3));
}

#[test]
fn in_bounds_does_not_wrap_around() {
    let mut image = grid(2, 2);
    let view = SubImage::new(&mut image, u32::MAX, u32::MAX, 2, 2);
    assert!(view.in_bounds(u32::MAX, u32::MAX));
    assert!(!view.in_bounds(0, 0));
    assert!(!view.in_bounds(1, u32::MAX));
}

#[test]
fn generic_get_and_put() {
    let mut image = grid(3, 3);
    assert_eq!(GenericImage::get_pixel(&image, 2, 1).value(), 12);
    assert_eq!(image.unsafe_get_pixel(1, 2).value(), 21);
    GenericImage::put_pixel(&mut image, 2, 1, GrayU16::new(7));
    image.unsafe_put_pixel(0, 0, GrayU16::new(8));
    GenericImage::get_pixel_mut(&mut image, 1, 1).set(GrayU16::new(9));
    assert_eq!(image.into_raw(), vec![8, 1, 2, 10, 9, 7, 20, 21, 22]);
}

#[test]
fn generic_pixels_walk_row_by_row() {
    let image = grid(3, 2);
    let mut iter = GenericImage::pixels(&image);
    let mut seen = Vec::new();
    while let Some((x, y, p)) = iter.next() {
        seen.push((x, y, p.value()));
    }
    assert_eq!(
        seen,
        vec![(0, 0, 0), (1, 0, 1), (2, 0, 2), (0, 1, 10), (1, 1, 11), (2, 1, 12)]
    );
    assert!(iter.next().is_none());
    assert!(iter.next().is_none());
}

#[test]
fn pixels_can_start_in_the_middle() {
    let image = grid(3, 3);
    let mut iter = Pixels::new(&image, 1, 1, 2, 2);
    let mut seen = Vec::new();
    while let Some((x, y, p)) = iter.next() {
        seen.push((x, y, p.value()));
    }
    assert_eq!(seen, vec![(1, 1, 11)]);
    let mut iter = Pixels::new(&image, 5, 0, 2, 2);
    assert_eq!(iter.next().map(|(x, y, p)| (x, y, p.value())), Some((0, 1, 10)));
}

#[test]
fn pixels_of_an_image_without_columns_or_rows() {
    let image = grid(0, 3);
    assert!(GenericImage::pixels(&image).next().is_none());
    let image = grid(3, 0);
    assert!(GenericImage::pixels(&image).next().is_none());
    let image = grid(2, 2);
    let mut iter = Pixels::new(&image, 7, u32::MAX, 2, 2);
    assert!(iter.next().is_none());
}

#[test]
fn sub_image_moves_coordinates_by_its_corner() {
    let mut image = grid(5, 4);
    {
        let mut view = image.sub_image(2, 1, 3, 2);
        assert_eq!(view.dimensions(), (3, 2));
        assert_eq!(view.width(), 3);
        assert_eq!(view.height(), 2);
        assert_eq!(view.get_pixel(0, 0).value(), 12);
        assert_eq!(view.get_pixel(2, 1).value(), 24);
        view.put_pixel(1, 1, GrayU16::new(99));
        view.get_pixel_mut(0, 1).set(GrayU16::new(98));
    }
    assert_eq!(image.get_pixel(3, 2).get().value(), 99);
    assert_eq!(image.get_pixel(2, 2).get().value(), 98);
    assert_eq!(image.get_pixel(2, 1).get().value(), 12);
}

#[test]
fn sub_image_pixels_are_local() {
    let mut image = grid(4, 4);
    let view = image.sub_image(1, 2, 2, 2);
    let mut iter = view.pixels();
    let mut seen = Vec::new();
    while let Some((x, y, p)) = iter.next() {
        seen.push((x, y, p.value()));
    }
    assert_eq!(seen, vec![(0, 0, 21), (1, 0, 22), (0, 1, 31), (1, 1, 32)]);
}

#[test]
fn sub_image_to_image_copies_the_rectangle() {
    let mut image = grid(4, 4);
    let out = {
        let view = image.sub_image(1, 2, 3, 2);
        view.to_image()
    };
    assert_eq!(out.dimensions(), (3, 2));
    assert_eq!(out.into_raw(), vec![21, 22, 23, 31, 32, 33]);
    let empty = image.sub_image(0, 0, 0, 0).to_image();
    assert_eq!(empty.dimensions(), (0, 0));
}

#[test]
fn sub_image_change_bounds_and_inner_mut() {
    let mut image = grid(4, 4);
    {
        let mut view = SubImage::new(&mut image, 0, 0, 1, 1);
        assert_eq!(view.get_pixel(0, 0).value(), 0);
        view.change_bounds(3, 3, 1, 1);
        assert_eq!(view.bounds(), (3, 3, 1, 1));
        assert_eq!(view.get_pixel(0, 0).value(), 33);
        view.inner_mut().put_pixel(3, 3, GrayU16::new(5));
        assert_eq!(view.get_pixel(0, 0).value(), 5);
    }
    assert_eq!(image.get_pixel(3, 3).get().value(), 5);
}

#[test]
fn sub_image_of_a_sub_image() {
    let mut image = grid(6, 6);
    {
        let mut outer = image.sub_image(1, 1, 4, 4);
        let mut inner = outer.sub_image(2, 1, 2, 2);
        assert_eq!(inner.get_pixel(1, 1).value(), 34);
        inner.put_pixel(0, 0, GrayU16::new(1));
    }
    assert_eq!(image.get_pixel(3, 2).get().value(), 1);
}

#[test]
fn copy_from_fails_without_writing_when_too_wide_or_too_high() {
    let other = grid(2, 2);
    for (x, y) in [(3u32, 0u32), (0, 2), (3, 2), (4, 0), (u32::MAX, 0), (0, u32::MAX)] {
        let mut image: Gray16Image = ImageBuffer::from_pixel(4, 3, GrayU16::new(7));
        assert!(!image.copy_from(&other, x, y));
        assert_eq!(image.into_raw(), vec![7u16; 12]);
    }
}

#[test]
fn copy_from_puts_every_pixel_at_the_offset() {
    let other = grid(2, 2);
    for (x, y) in [(0u32, 0u32), (2, 0), (0, 1), (2, 1), (1, 1)] {
        let mut image: Gray16Image = ImageBuffer::from_pixel(4, 3, GrayU16::new(7));
        assert!(image.copy_from(&other, x, y));
        for b in 0..3u32 {
            for a in 0..4u32 {
                let inside = x <= a && a < x + 2 && y <= b && b < y + 2;
                let expected = if inside { (10 * (b - y) + (a - x)) as u16 } else { 7 };
                assert_eq!(image.get_pixel(a, b).get().value(), expected);
            }
        }
    }
}

#[test]
fn copy_from_of_an_image_without_pixels_succeeds() {
    let other = grid(0, 0);
    let mut image: Gray16Image = ImageBuffer::from_pixel(2, 2, GrayU16::new(7));
    assert!(image.copy_from(&other, 2, 2));
    assert!(!image.copy_from(&other, 3, 0));
    assert_eq!(image.into_raw(), vec![7u16; 4]);
}

#[test]
fn copy_from_between_views() {
    let mut source = grid(4, 4);
    let mut target: Gray16Image = ImageBuffer::new(4, 4);
    {
        let from = source.sub_image(2, 2, 2, 2);
        let mut to = target.sub_image(1, 0, 3, 3);
        assert!(copy_from(&mut to, &from, 1, 1));
        assert!(!copy_from(&mut to, &from, 2, 1));
    }
    assert_eq!(
        target.into_raw(),
        vec![0, 0, 0, 0, 0, 0, 22, 23, 0, 0, 32, 33, 0, 0, 0, 0]
    );
}

#[test]
fn copy_from_into_a_view_writes_the_owner() {
    let other = grid(2, 2);
    let mut owner: Gray16Image = ImageBuffer::from_pixel(5, 4, GrayU16::new(7));
    {
        let mut view = owner.sub_image(1, 1, 3, 3);
        assert!(!view.copy_from(&other, 2, 0));
        assert!(!view.copy_from(&other, 0, 2));
        assert!(view.copy_from(&other, 1, 0));
    }
    assert_eq!(
        owner.into_raw(),
        vec![7, 7, 7, 7, 7, 7, 7, 0, 1, 7, 7, 7, 10, 11, 7, 7, 7, 7, 7, 7]
    );
}
