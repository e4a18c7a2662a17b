//! The capabilities that samples, pixels and sample stores offer.

use crate::color::{PixelMut, PixelType};
use crate::image::{Pixels, SubImage};
use vstd::prelude::*;

verus! {

/// A number that can be a sample: the integers of 8 to 64 bits and of the
/// machine's word size, each with its zero and its bounds. Samples of 32-bit
/// IEEE-754 numbers are carried as the `u32` of their bits, whose zero is
/// the number zero.
pub trait Primitive: Copy + PartialOrd + Sized {
    /// The zero of the type.
    spec fn zero_value() -> Self;

    /// The least number of the type.
    spec fn least() -> Self;

    /// The greatest number of the type.
    spec fn greatest() -> Self;

    /// The zero of the type.
    fn zero() -> (z: Self)
        ensures
            z == Self::zero_value(),
    ;

    /// The least number of the type.
    fn min_value() -> (m: Self)
        ensures
            m == Self::least(),
    ;

    /// The greatest number of the type.
    fn max_value() -> (m: Self)
        ensures
            m == Self::greatest(),
    ;
}

/// The number that a value of an integer type stands for.
pub open spec fn number<T: Integer>(x: T) -> int {
    x as int
}

/// `num::Zero::zero`: the additive identity of `T`, which for each integer
/// type of the standard library is the number 0.
#[verifier::external_body]
fn num_zero<T: num::Zero + Integer>() -> (z: T)
    ensures
        z as int == 0,
{
    num::Zero::zero()
}

/// `num::Bounded::min_value`: the smallest number that `T` can hold, which
/// for each integer type of the standard library is its `MIN`, below which
/// the type has no number.
#[verifier::external_body]
fn num_min_value<T: num::Bounded + Integer>() -> (m: T)
    ensures
        forall|x: T| number(m) <= #[trigger] number(x),
{
    num::Bounded::min_value()
}

/// `num::Bounded::max_value`: the largest number that `T` can hold, which
/// for each integer type of the standard library is its `MAX`, above which
/// the type has no number.
#[verifier::external_body]
fn num_max_value<T: num::Bounded + Integer>() -> (m: T)
    ensures
        forall|x: T| #[trigger] number(x) <= number(m),
{
    num::Bounded::max_value()
}

impl Primitive for usize {
    open spec fn zero_value() -> usize {
        0
    }

    open spec fn least() -> usize {
        usize::MIN
    }

    open spec fn greatest() -> usize {
        usize::MAX
    }

    fn zero() -> (z: usize) {
        num_zero::<usize>()
    }

    fn min_value() -> (m: usize) {
        let m = num_min_value::<usize>();
        assert(number(m) <= number(usize::MIN));
        m
    }

    fn max_value() -> (m: usize) {
        let m = num_max_value::<usize>();
        assert(number(usize::MAX) <= number(m));
        m
    }
}

impl Primitive for u8 {
    open spec fn zero_value() -> u8 {
        0
    }

    open spec fn least() -> u8 {
        u8::MIN
    }

    open spec fn greatest() -> u8 {
        u8::MAX
    }

    fn zero() -> (z: u8) {
        num_zero::<u8>()
    }

    fn min_value() -> (m: u8) {
        let m = num_min_value::<u8>();
        assert(number(m) <= number(u8::MIN));
        m
    }

    fn max_value() -> (m: u8) {
        let m = num_max_value::<u8>();
        assert(number(u8::MAX) <= number(m));
        m
    }
}

impl Primitive for u16 {
    open spec fn zero_value() -> u16 {
        0
    }

    open spec fn least() -> u16 {
        u16::MIN
    }

    open spec fn greatest() -> u16 {
        u16::MAX
    }

    fn zero() -> (z: u16) {
        num_zero::<u16>()
    }

    fn min_value() -> (m: u16) {
        let m = num_min_value::<u16>();
        assert(number(m) <= number(u16::MIN));
        m
    }

    fn max_value() -> (m: u16) {
        let m = num_max_value::<u16>();
        assert(number(u16::MAX) <= number(m));
        m
    }
}

impl Primitive for u32 {
    open spec fn zero_value() -> u32 {
        0
    }

    open spec fn least() -> u32 {
        u32::MIN
    }

    open spec fn greatest() -> u32 {
        u32::MAX
    }

    fn zero() -> (z: u32) {
        num_zero::<u32>()
    }

    fn min_value() -> (m: u32) {
        let m = num_min_value::<u32>();
        assert(number(m) <= number(u32::MIN));
        m
    }

    fn max_value() -> (m: u32) {
        let m = num_max_value::<u32>();
        assert(number(u32::MAX) <= number(m));
        m
    }
}

impl Primitive for u64 {
    open spec fn zero_value() -> u64 {
        0
    }

    open spec fn least() -> u64 {
        u64::MIN
    }

    open spec fn greatest() -> u64 {
        u64::MAX
    }

    fn zero() -> (z: u64) {
        num_zero::<u64>()
    }

    fn min_value() -> (m: u64) {
        let m = num_min_value::<u64>();
        assert(number(m) <= number(u64::MIN));
        m
    }

    fn max_value() -> (m: u64) {
        let m = num_max_value::<u64>();
        assert(number(u64::MAX) <= number(m));
        m
    }
}

impl Primitive for isize {
    open spec fn zero_value() -> isize {
        0
    }

    open spec fn least() -> isize {
        isize::MIN
    }

    open spec fn greatest() -> isize {
        isize::MAX
    }

    fn zero() -> (z: isize) {
        num_zero::<isize>()
    }

    fn min_value() -> (m: isize) {
        let m = num_min_value::<isize>();
        assert(number(m) <= number(isize::MIN));
        m
    }

    fn max_value() -> (m: isize) {
        let m = num_max_value::<isize>();
        assert(number(isize::MAX) <= number(m));
        m
    }
}

impl Primitive for i8 {
    open spec fn zero_value() -> i8 {
        0
    }

    open spec fn least() -> i8 {
        i8::MIN
    }

    open spec fn greatest() -> i8 {
        i8::MAX
    }

    fn zero() -> (z: i8) {
        num_zero::<i8>()
    }

    fn min_value() -> (m: i8) {
        let m = num_min_value::<i8>();
        assert(number(m) <= number(i8::MIN));
        m
    }

    fn max_value() -> (m: i8) {
        let m = num_max_value::<i8>();
        assert(number(i8::MAX) <= number(m));
        m
    }
}

impl Primitive for i16 {
    open spec fn zero_value() -> i16 {
        0
    }

    open spec fn least() -> i16 {
        i16::MIN
    }

    open spec fn greatest() -> i16 {
        i16::MAX
    }

    fn zero() -> (z: i16) {
        num_zero::<i16>()
    }

    fn min_value() -> (m: i16) {
        let m = num_min_value::<i16>();
        assert(number(m) <= number(i16::MIN));
        m
    }

    fn max_value() -> (m: i16) {
        let m = num_max_value::<i16>();
        assert(number(i16::MAX) <= number(m));
        m
    }
}

impl Primitive for i32 {
    open spec fn zero_value() -> i32 {
        0
    }

    open spec fn least() -> i32 {
        i32::MIN
    }

    open spec fn greatest() -> i32 {
        i32::MAX
    }

    fn zero() -> (z: i32) {
        num_zero::<i32>()
    }

    fn min_value() -> (m: i32) {
        let m = num_min_value::<i32>();
        assert(number(m) <= number(i32::MIN));
        m
    }

    fn max_value() -> (m: i32) {
        let m = num_max_value::<i32>();
        assert(number(i32::MAX) <= number(m));
        m
    }
}

impl Primitive for i64 {
    open spec fn zero_value() -> i64 {
        0
    }

    open spec fn least() -> i64 {
        i64::MIN
    }

    open spec fn greatest() -> i64 {
        i64::MAX
    }

    fn zero() -> (z: i64) {
        num_zero::<i64>()
    }

    fn min_value() -> (m: i64) {
        let m = num_min_value::<i64>();
        assert(number(m) <= number(i64::MIN));
        m
    }

    fn max_value() -> (m: i64) {
        let m = num_max_value::<i64>();
        assert(number(i64::MAX) <= number(m));
        m
    }
}

/// A flat store of samples that can be read: an owned vector or a borrowed
/// slice.
pub trait Container<S>: Sized {
    /// The samples in the store, in order.
    spec fn contents(&self) -> Seq<S>;

    /// The store as a slice.
    fn as_samples(&self) -> (s: &[S])
        ensures
            s@ == self.contents(),
    ;
}

/// A flat store of samples that can also be written in place.
pub trait ContainerMut<S>: Container<S> {
    /// The store as a slice to write through. What is written there is what
    /// the store holds afterwards.
    fn as_samples_mut(&mut self) -> (s: &mut [S])
        ensures
            s@ == old(self).contents(),
            final(self).contents() == final(s)@,
    ;
}

impl<S> Container<S> for Vec<S> {
    open spec fn contents(&self) -> Seq<S> {
        self@
    }

    fn as_samples(&self) -> (s: &[S]) {
        self.as_slice()
    }
}

impl<S> ContainerMut<S> for Vec<S> {
    fn as_samples_mut(&mut self) -> (s: &mut [S]) {
        self.as_mut_slice()
    }
}

impl<'a, S> Container<S> for &'a [S] {
    open spec fn contents(&self) -> Seq<S> {
        (**self)@
    }

    fn as_samples(&self) -> (s: &[S]) {
        *self
    }
}

impl<'a, S> Container<S> for &'a mut [S] {
    open spec fn contents(&self) -> Seq<S> {
        (**self)@
    }

    fn as_samples(&self) -> (s: &[S]) {
        &**self
    }
}

impl<'a, S> ContainerMut<S> for &'a mut [S] {
    fn as_samples_mut(&mut self) -> (s: &mut [S]) {
        &mut **self
    }
}

/// A fixed group of samples, the channels, seen as one unit.
pub trait Pixel: Copy + Sized {
    /// The type of each channel.
    type Subpixel: Primitive;

    /// How many channels a pixel has.
    spec fn channels() -> nat;

    /// The encoding that the codec uses for pixels of this kind.
    spec fn format() -> PixelType;

    /// The channels of the pixel, in order.
    spec fn samples(&self) -> Seq<Self::Subpixel>;

    /// A pixel has at least one channel.
    proof fn lemma_channels()
        ensures
            Self::channels() >= 1,
    ;

    /// A pixel has as many samples as the kind has channels, and is nothing
    /// but its samples.
    proof fn lemma_samples(p: Self, q: Self)
        ensures
            p.samples().len() == Self::channels(),
            p.samples() == q.samples() ==> p == q,
    ;

    /// How many channels a pixel has.
    fn channel_count() -> (n: usize)
        ensures
            n == Self::channels(),
    ;

    /// The encoding that the codec uses for pixels of this kind.
    fn pixel_type() -> (t: PixelType)
        ensures
            t == Self::format(),
    ;

    /// The channels as a slice.
    fn values(&self) -> (s: &[Self::Subpixel])
        ensures
            s@ == self.samples(),
    ;

    /// The channels as a slice to write through.
    fn values_mut(&mut self) -> (s: &mut [Self::Subpixel])
        ensures
            s@ == old(self).samples(),
            final(self).samples() == final(s)@,
    ;

    /// The pixel whose channels are the samples of `slice`.
    fn from_channels(slice: &[Self::Subpixel]) -> (p: Self)
        requires
            slice@.len() == Self::channels(),
        ensures
            p.samples() == slice@,
    ;

    /// The pixel whose channels are those of this one, each put through `f`.
    fn map<F>(&self, f: F) -> (r: Self) where F: Fn(Self::Subpixel) -> Self::Subpixel
        requires
            forall|c: int|
                0 <= c < Self::channels() ==> call_requires(f, (#[trigger] self.samples()[c],)),
        ensures
            forall|c: int|
                0 <= c < Self::channels() ==> call_ensures(
                    f,
                    (self.samples()[c],),
                    #[trigger] r.samples()[c],
                ),
    {
        let mut this = *self;
        this.apply(f);
        this
    }

    /// Puts each channel of this pixel through `f`, in place.
    fn apply<F>(&mut self, f: F) where F: Fn(Self::Subpixel) -> Self::Subpixel
        requires
            forall|c: int|
                0 <= c < Self::channels() ==> call_requires(
                    f,
                    (#[trigger] old(self).samples()[c],),
                ),
        ensures
            forall|c: int|
                0 <= c < Self::channels() ==> call_ensures(
                    f,
                    (old(self).samples()[c],),
                    #[trigger] final(self).samples()[c],
                ),
    {
        let n: usize = Self::channel_count();
        proof {
            Self::lemma_samples(*self, *self);
        }
        let ghost before = self.samples();
        let s = self.values_mut();
        let mut c: usize = 0;
        while c < n
            invariant
                c <= n,
                n == Self::channels(),
                before.len() == n,
                s@.len() == n,
                forall|k: int| 0 <= k < n ==> call_requires(f, (#[trigger] before[k],)),
                forall|k: int| 0 <= k < c ==> call_ensures(f, (before[k],), #[trigger] s@[k]),
                forall|k: int| c <= k < n ==> s@[k] == before[k],
            decreases n - c,
        {
            assert(s@[c as int] == before[c as int]);
            assert(call_requires(f, (before[c as int],)));
            let v = f(s[c]);
            s[c] = v;
            c = c + 1;
        }
    }

    /// The pixel whose channels are those of this one and of `other`, pair
    /// by pair put through `f`.
    fn map2<F>(&self, other: &Self, f: F) -> (r: Self) where
        F: Fn(Self::Subpixel, Self::Subpixel) -> Self::Subpixel,

        requires
            forall|c: int|
                0 <= c < Self::channels() ==> call_requires(
                    f,
                    (#[trigger] self.samples()[c], other.samples()[c]),
                ),
        ensures
            forall|c: int|
                0 <= c < Self::channels() ==> call_ensures(
                    f,
                    (self.samples()[c], other.samples()[c]),
                    #[trigger] r.samples()[c],
                ),
    {
        let mut this = *self;
        this.apply2(other, f);
        this
    }

    /// Puts each channel of this pixel, paired with that of `other`, through
    /// `f`, in place.
    fn apply2<F>(&mut self, other: &Self, f: F) where
        F: Fn(Self::Subpixel, Self::Subpixel) -> Self::Subpixel,

        requires
            forall|c: int|
                0 <= c < Self::channels() ==> call_requires(
                    f,
                    (#[trigger] old(self).samples()[c], other.samples()[c]),
                ),
        ensures
            forall|c: int|
                0 <= c < Self::channels() ==> call_ensures(
                    f,
                    (old(self).samples()[c], other.samples()[c]),
                    #[trigger] final(self).samples()[c],
                ),
    {
        let n: usize = Self::channel_count();
        proof {
            Self::lemma_samples(*self, *other);
            Self::lemma_samples(*other, *other);
        }
        let ghost before = self.samples();
        let b = other.values();
        let s = self.values_mut();
        let mut c: usize = 0;
        while c < n
            invariant
                c <= n,
                n == Self::channels(),
                before.len() == n,
                b@ == other.samples(),
                b@.len() == n,
                s@.len() == n,
                forall|k: int| 0 <= k < n ==> call_requires(f, (#[trigger] before[k], b@[k])),
                forall|k: int|
                    0 <= k < c ==> call_ensures(f, (before[k], b@[k]), #[trigger] s@[k]),
                forall|k: int| c <= k < n ==> s@[k] == before[k],
            decreases n - c,
        {
            assert(s@[c as int] == before[c as int]);
            assert(call_requires(f, (before[c as int], b@[c as int])));
            let v = f(s[c], b[c]);
            s[c] = v;
            c = c + 1;
        }
    }
}

/// Whether `(x, y)` lies in the rectangle `bounds`, given as the column and
/// row of its corner, its width and its height.
pub open spec fn within(bounds: (u32, u32, u32, u32), x: u32, y: u32) -> bool {
    &&& bounds.0 <= x < bounds.0 + bounds.2
    &&& bounds.1 <= y < bounds.1 + bounds.3
}

/// An image that is read and written pixel by pixel: a buffer, or a view
/// into another image.
pub trait GenericImage: Sized {
    /// The kind of pixel the image is made of.
    type Pixel: Pixel;

    /// Width and height of the image.
    spec fn spec_dimensions(&self) -> (u32, u32);

    /// The rectangle the image takes: the column and row of its corner,
    /// then its width and height.
    spec fn spec_bounds(&self) -> (u32, u32, u32, u32);

    /// The image has a pixel at `(x, y)` that can be read and written.
    spec fn reaches(&self, x: u32, y: u32) -> bool;

    /// The samples of the pixel at `(x, y)`.
    spec fn pixel_samples(&self, x: u32, y: u32) -> Seq<<Self::Pixel as Pixel>::Subpixel>;

    /// A pixel that the image has is made of as many samples as its kind
    /// has channels.
    proof fn lemma_pixel_samples(image: Self, x: u32, y: u32)
        requires
            image.reaches(x, y),
        ensures
            image.pixel_samples(x, y).len() == <Self::Pixel as Pixel>::channels(),
    ;

    /// Width and height of the image.
    fn dimensions(&self) -> (d: (u32, u32))
        ensures
            d == self.spec_dimensions(),
    ;

    /// The width of the image.
    fn width(&self) -> (w: u32)
        ensures
            w == self.spec_dimensions().0,
    {
        let (w, _) = self.dimensions();
        w
    }

    /// The height of the image.
    fn height(&self) -> (h: u32)
        ensures
            h == self.spec_dimensions().1,
    {
        let (_, h) = self.dimensions();
        h
    }

    /// The rectangle the image takes.
    fn bounds(&self) -> (b: (u32, u32, u32, u32))
        ensures
            b == self.spec_bounds(),
    ;

    /// Whether `(x, y)` lies in the rectangle the image takes.
    fn in_bounds(&self, x: u32, y: u32) -> (b: bool)
        ensures
            b == within(self.spec_bounds(), x, y),
    {
        let (ix, iy, iw, ih) = self.bounds();
        if x < ix || x as u64 >= ix as u64 + iw as u64 {
            false
        } else if y < iy || y as u64 >= iy as u64 + ih as u64 {
            false
        } else {
            true
        }
    }

    /// The pixel at `(x, y)`.
    fn get_pixel(&self, x: u32, y: u32) -> (pixel: Self::Pixel)
        requires
            self.reaches(x, y),
        ensures
            pixel.samples() == self.pixel_samples(x, y),
    ;

    /// The pixel at `(x, y)`, to be written in place. What is written to it
    /// is written to the image, and nothing else of the image changes.
    fn get_pixel_mut(&mut self, x: u32, y: u32) -> (pixel: PixelMut<'_, Self::Pixel>)
        requires
            old(self).reaches(x, y),
        ensures
            pixel.wf(),
            pixel.samples@ == old(self).pixel_samples(x, y),
            final(pixel.samples)@.len() == pixel.samples@.len() ==> final(self).pixel_samples(x, y)
                == final(pixel.samples)@,
            final(pixel.samples)@.len() == pixel.samples@.len() ==> final(self).spec_dimensions()
                == old(self).spec_dimensions(),
            final(pixel.samples)@.len() == pixel.samples@.len() ==> final(self).spec_bounds()
                == old(self).spec_bounds(),
            final(pixel.samples)@.len() == pixel.samples@.len() ==>
                forall|a: u32, b: u32| #[trigger]
                final(self).reaches(a, b) == old(self).reaches(a, b),
            final(pixel.samples)@.len() == pixel.samples@.len() ==> forall|a: u32, b: u32|
                old(self).reaches(a, b) && !(a == x && b == y) ==>
                    #[trigger] final(self).pixel_samples(a, b) == old(self).pixel_samples(a, b),
    ;

    /// The pixel at `(x, y)`, for a caller who has made sure that the image
    /// has it.
    fn unsafe_get_pixel(&self, x: u32, y: u32) -> (pixel: Self::Pixel)
        requires
            self.reaches(x, y),
        ensures
            pixel.samples() == self.pixel_samples(x, y),
    {
        self.get_pixel(x, y)
    }

    /// Writes `pixel` at `(x, y)`. Nothing else of the image changes.
    fn put_pixel(&mut self, x: u32, y: u32, pixel: Self::Pixel)
        requires
            old(self).reaches(x, y),
        ensures
            final(self).pixel_samples(x, y) == pixel.samples(),
            final(self).spec_dimensions() == old(self).spec_dimensions(),
            final(self).spec_bounds() == old(self).spec_bounds(),
            forall|a: u32, b: u32| #[trigger] final(self).reaches(a, b) == old(self).reaches(a, b),
            forall|a: u32, b: u32|
                old(self).reaches(a, b) && !(a == x && b == y) ==>
                    #[trigger] final(self).pixel_samples(a, b) == old(self).pixel_samples(a, b),
    ;

    /// Writes `pixel` at `(x, y)`, for a caller who has made sure that the
    /// image has a pixel there.
    fn unsafe_put_pixel(&mut self, x: u32, y: u32, pixel: Self::Pixel)
        requires
            old(self).reaches(x, y),
        ensures
            final(self).pixel_samples(x, y) == pixel.samples(),
            final(self).spec_dimensions() == old(self).spec_dimensions(),
            final(self).spec_bounds() == old(self).spec_bounds(),
            forall|a: u32, b: u32| #[trigger] final(self).reaches(a, b) == old(self).reaches(a, b),
            forall|a: u32, b: u32|
                old(self).reaches(a, b) && !(a == x && b == y) ==>
                    #[trigger] final(self).pixel_samples(a, b) == old(self).pixel_samples(a, b),
    {
        self.put_pixel(x, y, pixel);
    }

    /// Walks over the pixels of the image, row by row, and gives each with
    /// its column and its row.
    fn pixels(&self) -> (iter: Pixels<'_, Self>)
        ensures
            *iter.image == *self,
            iter.x == 0,
            iter.y == 0,
            iter.width == self.spec_dimensions().0,
            iter.height == self.spec_dimensions().1,
    {
        let (width, height) = self.dimensions();
        Pixels::new(self, 0, 0, width, height)
    }

    /// A view of the rectangle of this image whose corner is at `(x, y)`
    /// and which is `width` wide and `height` high.
    fn sub_image(&mut self, x: u32, y: u32, width: u32, height: u32) -> (view: SubImage<'_, Self>)
        ensures
            *view.image == *old(self),
            *final(self) == *final(view.image),
            view.xoffset == x,
            view.yoffset == y,
            view.xstride == width,
            view.ystride == height,
    {
        SubImage::new(self, x, y, width, height)
    }
}

} // verus!
