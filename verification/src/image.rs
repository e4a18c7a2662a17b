//! Walking over any image by coordinates, and views into images.

use crate::buffer::{lemma_put_frame, ImageBuffer};
use crate::color::PixelMut;
use crate::traits::{ContainerMut, GenericImage, Pixel};
use vstd::prelude::*;

verus! {

/// Walks over the pixels of an image row by row and gives each with its
/// column and its row. The walk covers the columns below `width` and the
/// rows below `height`, and starts at `(x, y)`.
pub struct Pixels<'a, I: 'a> {
    /// The image that is walked over.
    pub image: &'a I,
    /// The column of the pixel that comes next.
    pub x: u32,
    /// The row of the pixel that comes next.
    pub y: u32,
    /// The number of columns that are walked.
    pub width: u32,
    /// The number of rows that are walked.
    pub height: u32,
}

impl<'a, I: 'a> Pixels<'a, I> {
    /// A walk over the first `width` columns and `height` rows of `image`
    /// that starts at `(x, y)`.
    pub fn new(image: &'a I, x: u32, y: u32, width: u32, height: u32) -> (iter: Pixels<'a, I>)
        ensures
            iter == (Pixels { image, x, y, width, height }),
    {
        Pixels { image, x, y, width, height }
    }
}

/// A view into another image: the rectangle of the owner whose corner is at
/// `(xoffset, yoffset)` and which is `xstride` wide and `ystride` high.
/// Coordinates given to the view count from that corner. What is written
/// through the view is written to the owner, which the view holds for
/// itself as long as it lives.
pub struct SubImage<'a, I: 'a> {
    /// The owner.
    pub image: &'a mut I,
    /// The column of the corner in the owner.
    pub xoffset: u32,
    /// The row of the corner in the owner.
    pub yoffset: u32,
    /// The width of the view.
    pub xstride: u32,
    /// The height of the view.
    pub ystride: u32,
}

impl<'a, I: 'a> SubImage<'a, I> {
    /// A view of the rectangle of `image` whose corner is at `(x, y)` and
    /// which is `width` wide and `height` high.
    pub fn new(image: &'a mut I, x: u32, y: u32, width: u32, height: u32) -> (view: SubImage<
        'a,
        I,
    >)
        ensures
            *view.image == *old(image),
            *final(image) == *final(view.image),
            view.xoffset == x,
            view.yoffset == y,
            view.xstride == width,
            view.ystride == height,
    {
        SubImage { image, xoffset: x, yoffset: y, xstride: width, ystride: height }
    }

    /// The owner, to be written.
    pub fn inner_mut(&mut self) -> (owner: &mut I)
        ensures
            *owner == *old(self).image,
            *final(self).image == *final(owner),
            *final(final(self).image) == *final(old(self).image),
            final(self).xoffset == old(self).xoffset,
            final(self).yoffset == old(self).yoffset,
            final(self).xstride == old(self).xstride,
            final(self).ystride == old(self).ystride,
    {
        &mut *self.image
    }

    /// Makes the view show another rectangle of the owner.
    pub fn change_bounds(&mut self, x: u32, y: u32, width: u32, height: u32)
        ensures
            *final(self).image == *old(self).image,
            *final(final(self).image) == *final(old(self).image),
            final(self).xoffset == x,
            final(self).yoffset == y,
            final(self).xstride == width,
            final(self).ystride == height,
    {
        self.xoffset = x;
        self.yoffset = y;
        self.xstride = width;
        self.ystride = height;
    }
}

impl<'a, I: GenericImage> Pixels<'a, I> {
    /// Every pixel of the columns and rows that are walked can be read.
    pub open spec fn wf(&self) -> bool {
        forall|cx: u32, cy: u32|
            cx < self.width && cy < self.height ==> #[trigger] self.image.reaches(cx, cy)
    }

    /// The coordinate of the pixel that comes next, if one does: the one
    /// the walk stands at, or the first of the next row where the walk
    /// stands behind the end of a row.
    pub open spec fn next_cell(&self) -> Option<(u32, u32)> {
        if self.width == 0 || self.y >= self.height {
            None
        } else if self.x < self.width {
            Some((self.x, self.y))
        } else if self.y + 1 < self.height {
            Some((0u32, (self.y + 1) as u32))
        } else {
            None
        }
    }

    /// The pixel that comes next, if one does, behind its column and its
    /// row. The walk then stands behind that pixel. Where none comes the
    /// walk stays at its end.
    pub fn next(&mut self) -> (item: Option<(u32, u32, I::Pixel)>)
        requires
            old(self).wf(),
        ensures
            final(self).image == old(self).image,
            final(self).width == old(self).width,
            final(self).height == old(self).height,
            match old(self).next_cell() {
                None => item.is_none() && final(self).next_cell().is_none(),
                Some(cell) => {
                    &&& item matches Some(found)
                    &&& found.0 == cell.0
                    &&& found.1 == cell.1
                    &&& found.2.samples() == old(self).image.pixel_samples(cell.0, cell.1)
                    &&& final(self).x == cell.0 + 1
                    &&& final(self).y == cell.1
                },
            },
    {
        if self.width == 0 || self.y >= self.height {
            return None;
        }
        if self.x >= self.width {
            self.x = 0;
            self.y = self.y + 1;
        }
        if self.y >= self.height {
            None
        } else {
            assert(self.image.reaches(self.x, self.y));
            let pixel = self.image.get_pixel(self.x, self.y);
            let p = (self.x, self.y, pixel);
            self.x = self.x + 1;
            Some(p)
        }
    }
}

impl<'a, I: GenericImage> SubImage<'a, I> {
    /// The pixels of the view, copied into a buffer of their own.
    pub fn to_image(&self) -> (out: ImageBuffer<
        I::Pixel,
        Vec<<I::Pixel as Pixel>::Subpixel>,
    >)
        requires
            self.xstride * self.ystride * <I::Pixel as Pixel>::channels() <= usize::MAX,
            forall|x: u32, y: u32|
                x < self.xstride && y < self.ystride ==> #[trigger] self.reaches(x, y),
        ensures
            out.wf(),
            out.spec_width() == self.xstride,
            out.spec_height() == self.ystride,
            out@.len() == self.xstride * self.ystride * <I::Pixel as Pixel>::channels(),
            forall|x: u32, y: u32|
                x < self.xstride && y < self.ystride ==> #[trigger] out.samples_at(x, y)
                    == self.pixel_samples(x, y),
    {
        let mut out: ImageBuffer<I::Pixel, Vec<<I::Pixel as Pixel>::Subpixel>> = ImageBuffer::new(
            self.xstride,
            self.ystride,
        );
        let mut y: u32 = 0;
        while y < self.ystride
            invariant
                y <= self.ystride,
                out.wf(),
                out.spec_width() == self.xstride,
                out.spec_height() == self.ystride,
                out@.len() == self.xstride * self.ystride * <I::Pixel as Pixel>::channels(),
                forall|a: u32, b: u32|
                    a < self.xstride && b < self.ystride ==> #[trigger] self.reaches(a, b),
                forall|a: u32, b: u32|
                    a < self.xstride && b < y ==> #[trigger] out.samples_at(a, b)
                        == self.pixel_samples(a, b),
            decreases self.ystride - y,
        {
            let mut x: u32 = 0;
            while x < self.xstride
                invariant
                    x <= self.xstride,
                    y < self.ystride,
                    out.wf(),
                    out.spec_width() == self.xstride,
                    out.spec_height() == self.ystride,
                    out@.len() == self.xstride * self.ystride * <I::Pixel as Pixel>::channels(),
                    forall|a: u32, b: u32|
                        a < self.xstride && b < self.ystride ==> #[trigger] self.reaches(a, b),
                    forall|a: u32, b: u32|
                        a < self.xstride && (b < y || (b == y && a < x)) ==>
                            #[trigger] out.samples_at(
                            a,
                            b,
                        ) == self.pixel_samples(a, b),
                decreases self.xstride - x,
            {
                assert(self.reaches(x, y));
                let p = self.get_pixel(x, y);
                let ghost before = out;
                out.put_pixel(x, y, p);
                proof {
                    <I::Pixel as Pixel>::lemma_samples(p, p);
                    assert forall|a: u32, b: u32|
                        a < self.xstride && (b < y || (b == y && a < x + 1)) implies
                            #[trigger] out.samples_at(
                        a,
                        b,
                    ) == self.pixel_samples(a, b) by {
                        lemma_put_frame::<I::Pixel>(
                            before@,
                            self.xstride,
                            self.ystride,
                            x,
                            y,
                            p.samples(),
                            a,
                            b,
                        );
                        if !(a == x && b == y) {
                            assert(before.samples_at(a, b) == self.pixel_samples(a, b));
                        }
                    }
                }
                x = x + 1;
            }
            y = y + 1;
        }
        out
    }
}

impl<'a, I: GenericImage> SubImage<'a, I> {
    /// Copies all of `other` into this view, with the corner of `other` put
    /// at `(x, y)` of the view. Where `other` does not fit into the view
    /// nothing is written and the answer is `false`. The owner changes in
    /// the rectangle that is written and nowhere else.
    pub fn copy_from<O>(&mut self, other: &O, x: u32, y: u32) -> (copied: bool) where
        O: GenericImage<Pixel = I::Pixel>,

        requires
            forall|i: u32, k: u32|
                i < other.spec_dimensions().0 && k < other.spec_dimensions().1
                    ==> #[trigger] other.reaches(i, k),
            forall|a: u32, b: u32|
                a < old(self).xstride && b < old(self).ystride ==> #[trigger] old(self).reaches(
                    a,
                    b,
                ),
        ensures
            copied == (other.spec_dimensions().0 + x <= old(self).xstride
                && other.spec_dimensions().1 + y <= old(self).ystride),
            !copied ==> *final(self).image == *old(self).image,
            *final(final(self).image) == *final(old(self).image),
            final(self).spec_bounds() == old(self).spec_bounds(),
            final(self).image.spec_dimensions() == old(self).image.spec_dimensions(),
            final(self).image.spec_bounds() == old(self).image.spec_bounds(),
            forall|a: u32, b: u32| #[trigger]
                final(self).image.reaches(a, b) == old(self).image.reaches(a, b),
            copied ==> forall|i: u32, k: u32|
                i < other.spec_dimensions().0 && k < other.spec_dimensions().1 ==>
                    final(self).pixel_samples((i + x) as u32, (k + y) as u32)
                    == #[trigger] other.pixel_samples(i, k),
            copied ==> forall|a: u32, b: u32|
                old(self).image.reaches(a, b) && !(x + old(self).xoffset <= a < x + old(
                    self,
                ).xoffset + other.spec_dimensions().0 && y + old(self).yoffset <= b < y + old(
                    self,
                ).yoffset + other.spec_dimensions().1) ==>
                    #[trigger] final(self).image.pixel_samples(a, b)
                    == old(self).image.pixel_samples(a, b),
    {
        let other_width: u32 = other.width();
        let other_height: u32 = other.height();
        let width: u32 = self.xstride;
        let height: u32 = self.ystride;
        if (width as u64) < other_width as u64 + x as u64 {
            return false;
        } else if (height as u64) < other_height as u64 + y as u64 {
            return false;
        }
        let ghost xo = self.xoffset;
        let ghost yo = self.yoffset;
        let mut i: u32 = 0;
        while i < other_width
            invariant
                i <= other_width,
                other_width == other.spec_dimensions().0,
                other_height == other.spec_dimensions().1,
                other_width + x <= width,
                other_height + y <= height,
                self.spec_bounds() == (xo, yo, width, height),
                self.spec_bounds() == old(self).spec_bounds(),
                *final(self.image) == *final(old(self).image),
                self.image.spec_dimensions() == old(self).image.spec_dimensions(),
                self.image.spec_bounds() == old(self).image.spec_bounds(),
                forall|a: u32, b: u32|
                    a < other_width && b < other_height ==> #[trigger] other.reaches(a, b),
                forall|a: u32, b: u32|
                    a < width && b < height ==> #[trigger] old(self).reaches(a, b),
                forall|a: u32, b: u32| #[trigger]
                    self.image.reaches(a, b) == old(self).image.reaches(a, b),
                forall|a: u32, b: u32|
                    a < i && b < other_height ==> self.pixel_samples(
                        (a + x) as u32,
                        (b + y) as u32,
                    ) == #[trigger] other.pixel_samples(a, b),
                forall|a: u32, b: u32|
                    old(self).image.reaches(a, b) && !(x + xo <= a < x + xo + i && y + yo <= b < y
                        + yo + other_height) ==> #[trigger] self.image.pixel_samples(a, b)
                            == old(self).image.pixel_samples(a, b),
            decreases other_width - i,
        {
            let mut k: u32 = 0;
            while k < other_height
                invariant
                    i < other_width,
                    k <= other_height,
                    other_width == other.spec_dimensions().0,
                    other_height == other.spec_dimensions().1,
                    other_width + x <= width,
                    other_height + y <= height,
                    self.spec_bounds() == (xo, yo, width, height),
                    self.spec_bounds() == old(self).spec_bounds(),
                    *final(self.image) == *final(old(self).image),
                    self.image.spec_dimensions() == old(self).image.spec_dimensions(),
                    self.image.spec_bounds() == old(self).image.spec_bounds(),
                    forall|a: u32, b: u32|
                        a < other_width && b < other_height ==> #[trigger] other.reaches(a, b),
                    forall|a: u32, b: u32|
                        a < width && b < height ==> #[trigger] old(self).reaches(a, b),
                    forall|a: u32, b: u32| #[trigger]
                        self.image.reaches(a, b) == old(self).image.reaches(a, b),
                    forall|a: u32, b: u32|
                        (a < i && b < other_height) || (a == i && b < k) ==> self.pixel_samples(
                            (a + x) as u32,
                            (b + y) as u32,
                        ) == #[trigger] other.pixel_samples(a, b),
                    forall|a: u32, b: u32|
                        old(self).image.reaches(a, b) && !(x + xo <= a < x + xo + i && y + yo <= b
                            < y + yo + other_height) && !(a == x + xo + i && y + yo <= b < y + yo
                            + k) ==> #[trigger] self.image.pixel_samples(a, b)
                                == old(self).image.pixel_samples(a, b),
                decreases other_height - k,
            {
                let ghost before = *self.image;
                assert(other.reaches(i, k));
                let p = other.unsafe_get_pixel(i, k);
                assert(old(self).reaches((i + x) as u32, (k + y) as u32));
                assert(self.reaches((i + x) as u32, (k + y) as u32));
                self.put_pixel(i + x, k + y, p);
                proof {
                    assert forall|a: u32, b: u32|
                        (a < i && b < other_height) || (a == i && b < k + 1) implies
                            self.pixel_samples(
                        (a + x) as u32,
                        (b + y) as u32,
                    ) == #[trigger] other.pixel_samples(a, b) by {
                        if !(a == i && b == k) {
                            assert(old(self).reaches((a + x) as u32, (b + y) as u32));
                            assert(before.reaches((a + x + xo) as u32, (b + y + yo) as u32));
                            assert(before.pixel_samples((a + x + xo) as u32, (b + y + yo) as u32)
                                == other.pixel_samples(a, b));
                        }
                    }
                    assert forall|a: u32, b: u32|
                        old(self).image.reaches(a, b) && !(x + xo <= a < x + xo + i && y + yo <= b
                            < y + yo + other_height) && !(a == x + xo + i && y + yo <= b < y + yo
                            + k + 1) implies #[trigger] self.image.pixel_samples(a, b)
                                == old(self).image.pixel_samples(a, b) by {
                        assert(before.reaches(a, b));
                        assert(before.pixel_samples(a, b) == old(self).image.pixel_samples(a, b));
                    }
                }
                k = k + 1;
            }
            i = i + 1;
        }
        true
    }
}

impl<'a, I: GenericImage> GenericImage for SubImage<'a, I> {
    type Pixel = I::Pixel;

    open spec fn spec_dimensions(&self) -> (u32, u32) {
        (self.xstride, self.ystride)
    }

    /// A view has its corner where it lies in the owner.
    open spec fn spec_bounds(&self) -> (u32, u32, u32, u32) {
        (self.xoffset, self.yoffset, self.xstride, self.ystride)
    }

    /// A view has the pixels that the owner has at the coordinate moved by
    /// the corner.
    open spec fn reaches(&self, x: u32, y: u32) -> bool {
        &&& x + self.xoffset <= u32::MAX
        &&& y + self.yoffset <= u32::MAX
        &&& self.image.reaches((x + self.xoffset) as u32, (y + self.yoffset) as u32)
    }

    open spec fn pixel_samples(&self, x: u32, y: u32) -> Seq<<I::Pixel as Pixel>::Subpixel> {
        self.image.pixel_samples((x + self.xoffset) as u32, (y + self.yoffset) as u32)
    }

    proof fn lemma_pixel_samples(image: Self, x: u32, y: u32) {
        I::lemma_pixel_samples(
            *image.image,
            (x + image.xoffset) as u32,
            (y + image.yoffset) as u32,
        );
    }

    fn dimensions(&self) -> (d: (u32, u32)) {
        (self.xstride, self.ystride)
    }

    fn bounds(&self) -> (b: (u32, u32, u32, u32)) {
        (self.xoffset, self.yoffset, self.xstride, self.ystride)
    }

    fn get_pixel(&self, x: u32, y: u32) -> (pixel: I::Pixel) {
        self.image.get_pixel(x + self.xoffset, y + self.yoffset)
    }

    /// Writes to the owner, which stays the owner and changes nowhere else.
    fn put_pixel(&mut self, x: u32, y: u32, pixel: I::Pixel)
        ensures
            *final(final(self).image) == *final(old(self).image),
            final(self).image.spec_dimensions() == old(self).image.spec_dimensions(),
            final(self).image.spec_bounds() == old(self).image.spec_bounds(),
            forall|a: u32, b: u32| #[trigger]
                final(self).image.reaches(a, b) == old(self).image.reaches(a, b),
            forall|a: u32, b: u32|
                old(self).image.reaches(a, b) && !(a == x + old(self).xoffset && b
                    == y + old(self).yoffset) ==> #[trigger] final(self).image.pixel_samples(a, b)
                    == old(self).image.pixel_samples(a, b),
    {
        self.image.put_pixel(x + self.xoffset, y + self.yoffset, pixel)
    }

    /// Writes to the owner, which stays the owner and changes nowhere else.
    fn unsafe_put_pixel(&mut self, x: u32, y: u32, pixel: I::Pixel)
        ensures
            *final(final(self).image) == *final(old(self).image),
            final(self).image.spec_dimensions() == old(self).image.spec_dimensions(),
            final(self).image.spec_bounds() == old(self).image.spec_bounds(),
            forall|a: u32, b: u32| #[trigger]
                final(self).image.reaches(a, b) == old(self).image.reaches(a, b),
            forall|a: u32, b: u32|
                old(self).image.reaches(a, b) && !(a == x + old(self).xoffset && b
                    == y + old(self).yoffset) ==> #[trigger] final(self).image.pixel_samples(a, b)
                    == old(self).image.pixel_samples(a, b),
    {
        self.image.put_pixel(x + self.xoffset, y + self.yoffset, pixel)
    }

    /// Hands out a pixel of the owner, which stays the owner and changes
    /// nowhere else.
    fn get_pixel_mut(&mut self, x: u32, y: u32) -> (pixel: PixelMut<'_, I::Pixel>)
        ensures
            *final(final(self).image) == *final(old(self).image),
            final(pixel.samples)@.len() == pixel.samples@.len() ==>
                final(self).image.spec_dimensions()
                == old(self).image.spec_dimensions(),
            final(pixel.samples)@.len() == pixel.samples@.len() ==> final(self).image.spec_bounds()
                == old(self).image.spec_bounds(),
            final(pixel.samples)@.len() == pixel.samples@.len() ==>
                forall|a: u32, b: u32| #[trigger]
                final(self).image.reaches(a, b) == old(self).image.reaches(a, b),
            final(pixel.samples)@.len() == pixel.samples@.len() ==> forall|a: u32, b: u32|
                old(self).image.reaches(a, b) && !(a == x + old(self).xoffset && b
                    == y + old(self).yoffset) ==> #[trigger] final(self).image.pixel_samples(a, b)
                    == old(self).image.pixel_samples(a, b),
    {
        self.image.get_pixel_mut(x + self.xoffset, y + self.yoffset)
    }
}

/// Copies all of `other` into `image`, with the corner of `other`
/// put at `(x, y)`. Where `other` does not fit there nothing is written
/// and the answer is `false`.
pub fn copy_from<I, O>(image: &mut I, other: &O, x: u32, y: u32) -> (copied: bool) where
    I: GenericImage,
    O: GenericImage<Pixel = I::Pixel>,

    requires
        forall|i: u32, k: u32|
            i < other.spec_dimensions().0 && k < other.spec_dimensions().1
                ==> #[trigger] other.reaches(i, k),
        forall|a: u32, b: u32|
            a < old(image).spec_dimensions().0 && b < old(image).spec_dimensions().1
                ==> #[trigger] old(image).reaches(a, b),
    ensures
        copied == (other.spec_dimensions().0 + x <= old(image).spec_dimensions().0
            && other.spec_dimensions().1 + y <= old(image).spec_dimensions().1),
        !copied ==> *final(image) == *old(image),
        final(image).spec_dimensions() == old(image).spec_dimensions(),
        final(image).spec_bounds() == old(image).spec_bounds(),
        forall|a: u32, b: u32| #[trigger] final(image).reaches(a, b) == old(image).reaches(a, b),
        copied ==> forall|i: u32, k: u32|
            i < other.spec_dimensions().0 && k < other.spec_dimensions().1 ==>
                final(image).pixel_samples((i + x) as u32, (k + y) as u32)
                == #[trigger] other.pixel_samples(i, k),
        copied ==> forall|a: u32, b: u32|
            old(image).reaches(a, b) && !(x <= a < x + other.spec_dimensions().0 && y <= b < y
                + other.spec_dimensions().1) ==> #[trigger] final(image).pixel_samples(a, b)
                == old(image).pixel_samples(a, b),
{
    let other_width: u32 = other.width();
    let other_height: u32 = other.height();
    let width: u32 = image.width();
    let height: u32 = image.height();
    if (width as u64) < other_width as u64 + x as u64 {
        return false;
    } else if (height as u64) < other_height as u64 + y as u64 {
        return false;
    }
    let mut i: u32 = 0;
    while i < other_width
        invariant
            i <= other_width,
            other_width == other.spec_dimensions().0,
            other_height == other.spec_dimensions().1,
            other_width + x <= width,
            other_height + y <= height,
            image.spec_dimensions() == (width, height),
            image.spec_dimensions() == old(image).spec_dimensions(),
            image.spec_bounds() == old(image).spec_bounds(),
            forall|a: u32, b: u32|
                a < other_width && b < other_height ==> #[trigger] other.reaches(a, b),
            forall|a: u32, b: u32| a < width && b < height ==> #[trigger] old(image).reaches(a, b),
            forall|a: u32, b: u32| #[trigger] image.reaches(a, b) == old(image).reaches(a, b),
            forall|a: u32, b: u32|
                a < i && b < other_height ==> image.pixel_samples((a + x) as u32, (b + y) as u32)
                    == #[trigger] other.pixel_samples(a, b),
            forall|a: u32, b: u32|
                old(image).reaches(a, b) && !(x <= a < x + i && y <= b < y + other_height)
                    ==> #[trigger] image.pixel_samples(a, b) == old(image).pixel_samples(a, b),
        decreases other_width - i,
    {
        let mut k: u32 = 0;
        while k < other_height
            invariant
                i < other_width,
                k <= other_height,
                other_width == other.spec_dimensions().0,
                other_height == other.spec_dimensions().1,
                other_width + x <= width,
                other_height + y <= height,
                image.spec_dimensions() == (width, height),
                image.spec_dimensions() == old(image).spec_dimensions(),
                image.spec_bounds() == old(image).spec_bounds(),
                forall|a: u32, b: u32|
                    a < other_width && b < other_height ==> #[trigger] other.reaches(a, b),
                forall|a: u32, b: u32|
                    a < width && b < height ==> #[trigger] old(image).reaches(a, b),
                forall|a: u32, b: u32| #[trigger] image.reaches(a, b) == old(image).reaches(a, b),
                forall|a: u32, b: u32|
                    (a < i && b < other_height) || (a == i && b < k) ==> image.pixel_samples(
                        (a + x) as u32,
                        (b + y) as u32,
                    ) == #[trigger] other.pixel_samples(a, b),
                forall|a: u32, b: u32|
                    old(image).reaches(a, b) && !(x <= a < x + i && y <= b < y + other_height)
                        && !(a == x + i && y <= b < y + k) ==> #[trigger] image.pixel_samples(
                        a,
                        b,
                    ) == old(image).pixel_samples(a, b),
            decreases other_height - k,
        {
            let ghost before = *image;
            assert(other.reaches(i, k));
            let p = other.unsafe_get_pixel(i, k);
            assert(old(image).reaches((i + x) as u32, (k + y) as u32));
            assert(image.reaches((i + x) as u32, (k + y) as u32));
            image.unsafe_put_pixel(i + x, k + y, p);
            proof {
                assert forall|a: u32, b: u32|
                    (a < i && b < other_height) || (a == i && b < k + 1) implies
                        image.pixel_samples(
                    (a + x) as u32,
                    (b + y) as u32,
                ) == #[trigger] other.pixel_samples(a, b) by {
                    if !(a == i && b == k) {
                        assert(old(image).reaches((a + x) as u32, (b + y) as u32));
                        assert(before.reaches((a + x) as u32, (b + y) as u32));
                        assert(before.pixel_samples((a + x) as u32, (b + y) as u32)
                            == other.pixel_samples(a, b));
                    }
                }
                assert forall|a: u32, b: u32|
                    old(image).reaches(a, b) && !(x <= a < x + i && y <= b < y + other_height)
                        && !(a == x + i && y <= b < y + k + 1) implies
                            #[trigger] image.pixel_samples(
                    a,
                    b,
                ) == old(image).pixel_samples(a, b) by {
                    assert(before.reaches(a, b));
                    assert(before.pixel_samples(a, b) == old(image).pixel_samples(a, b));
                }
            }
            k = k + 1;
        }
        i = i + 1;
    }
    true
}


impl<P: Pixel, C: ContainerMut<P::Subpixel>> ImageBuffer<P, C> {
    /// Copies all of `other` into this image, with the corner of `other`
    /// put at `(x, y)`. Where `other` does not fit there nothing is written
    /// and the answer is `false`.
    pub fn copy_from<O>(&mut self, other: &O, x: u32, y: u32) -> (copied: bool) where
        O: GenericImage<Pixel = P>,

        requires
            old(self).wf(),
            forall|i: u32, k: u32|
                i < other.spec_dimensions().0 && k < other.spec_dimensions().1
                    ==> #[trigger] other.reaches(i, k),
        ensures
            final(self).wf(),
            copied == (other.spec_dimensions().0 + x <= old(self).spec_width()
                && other.spec_dimensions().1 + y <= old(self).spec_height()),
            !copied ==> *final(self) == *old(self),
            final(self).spec_dimensions() == old(self).spec_dimensions(),
            copied ==> forall|i: u32, k: u32|
                i < other.spec_dimensions().0 && k < other.spec_dimensions().1 ==>
                    final(self).samples_at((i + x) as u32, (k + y) as u32)
                    == #[trigger] other.pixel_samples(
                    i,
                    k,
                ),
            copied ==> forall|a: u32, b: u32|
                old(self).spec_in_bounds(a, b) && !(x <= a < x + other.spec_dimensions().0 && y
                    <= b < y + other.spec_dimensions().1) ==> #[trigger] final(self).samples_at(
                    a,
                    b,
                ) == old(self).samples_at(a, b),
    {
        let ghost before = *self;
        let copied = copy_from(self, other, x, y);
        proof {
            assert(self.reaches(0, 0) == before.reaches(0, 0));
            if before.spec_width() == 0 || before.spec_height() == 0 {
                assert(before.spec_width() * before.spec_height() * P::channels() == 0)
                    by (nonlinear_arith)
                    requires
                        before.spec_width() == 0 || before.spec_height() == 0,
                ;
            }
            if copied {
                assert forall|a: u32, b: u32|
                    before.spec_in_bounds(a, b) && !(x <= a < x + other.spec_dimensions().0 && y
                        <= b < y + other.spec_dimensions().1) implies #[trigger] self.samples_at(
                    a,
                    b,
                ) == before.samples_at(a, b) by {
                    assert(before.reaches(a, b));
                    assert(self.pixel_samples(a, b) == before.pixel_samples(a, b));
                }
            }
        }
        copied
    }
}

} // verus!
