//! The image buffer: width, height and a flat store of samples, read and
//! written pixel by pixel.
//!
//! The pixel at `(x, y)` has its samples at `channels * (y * width + x)` in
//! the store. Every accessor goes by this one rule.

use crate::color::{GrayF32, GrayU16, PixelMut, PixelRef};
use crate::layout::{
    chunk, column_of, lemma_chunk_bounds, lemma_coordinate_of_index, lemma_index_of_coordinate,
    lemma_pixel_index_bounds, lemma_pixel_index_ordered, pixel_index, row_of, sample_index,
    with_chunk,
};
use crate::traits::{Container, ContainerMut, GenericImage, Pixel, Primitive};
use core::marker::PhantomData;
use core::ops::{Deref, DerefMut};
use vstd::prelude::*;

verus! {

/// The pixels of a store of `count` pixels, each as its samples, in the
/// order of the store.
pub open spec fn pixel_chunks<S>(store: Seq<S>, channels: nat, count: nat) -> Seq<Seq<S>> {
    Seq::new(count, |i: int| chunk(store, channels, i))
}

/// The pixels of an image `width` wide and `height` high, each with its
/// column and its row before its samples, in the order of the store.
pub open spec fn enumeration<S>(store: Seq<S>, channels: nat, width: u32, height: u32) -> Seq<
    (u32, u32, Seq<S>),
> {
    Seq::new(
        (width * height) as nat,
        |i: int| (column_of(width, i) as u32, row_of(width, i) as u32, chunk(store, channels, i)),
    )
}

/// Walks over the pixels of an image in the order of the store, from either
/// end, and shows each where it lies.
pub struct PixelRefs<'a, P: Pixel> {
    samples: &'a [P::Subpixel],
    front: usize,
    back: usize,
}

impl<'a, P: Pixel> Clone for PixelRefs<'a, P> {
    /// A walk that stands where this one stands.
    fn clone(&self) -> (copy: PixelRefs<'a, P>)
        ensures
            copy == *self,
    {
        proof {
            use_type_invariant(self);
        }
        PixelRefs { samples: self.samples, front: self.front, back: self.back }
    }
}

impl<'a, P: Pixel> PixelRefs<'a, P> {
    #[verifier::type_invariant]
    spec fn inside(self) -> bool {
        &&& self.front <= self.back
        &&& self.back * P::channels() <= self.samples@.len()
    }

    /// The store that is walked over.
    pub closed spec fn store(&self) -> Seq<P::Subpixel> {
        self.samples@
    }

    /// The place of the pixel that comes next from the front.
    pub closed spec fn front_index(&self) -> int {
        self.front as int
    }

    /// One more than the place of the pixel that comes next from the back.
    pub closed spec fn back_index(&self) -> int {
        self.back as int
    }

    /// The pixels still to come, each as its samples, front to back.
    pub open spec fn remaining(&self) -> Seq<Seq<P::Subpixel>> {
        Seq::new(
            (self.back_index() - self.front_index()) as nat,
            |k: int| chunk(self.store(), P::channels(), self.front_index() + k),
        )
    }

    /// The first of the pixels still to come, if there is one.
    pub fn next(&mut self) -> (item: Option<PixelRef<'a, P>>)
        ensures
            final(self).store() == old(self).store(),
            final(self).back_index() == old(self).back_index(),
            0 <= old(self).front_index() <= old(self).back_index(),
            old(self).front_index() == old(self).back_index() ==> item.is_none()
                && final(self).front_index() == old(self).front_index(),
            old(self).front_index() < old(self).back_index() ==> (item matches Some(pixel)
                && pixel@ == chunk(old(self).store(), P::channels(), old(self).front_index()))
                && final(self).front_index() == old(self).front_index() + 1,
    {
        proof {
            use_type_invariant(&*self);
        }
        if self.front >= self.back {
            return None;
        }
        let no_channels: usize = P::channel_count();
        let all: &'a [P::Subpixel] = self.samples;
        let available: usize = all.len();
        proof {
            P::lemma_channels();
            assert(0 <= self.front * no_channels && self.front * no_channels + no_channels
                <= available) by (nonlinear_arith)
                requires
                    0 <= self.front < self.back,
                    no_channels >= 1,
                    self.back * no_channels <= available,
            ;
            assert(self.front * no_channels == P::channels() * self.front) by (nonlinear_arith)
                requires
                    no_channels == P::channels(),
            ;
        }
        let start: usize = self.front * no_channels;
        let pixel = PixelRef::from_slice(
            vstd::slice::slice_subrange(all, start, start + no_channels),
        );
        self.front = self.front + 1;
        Some(pixel)
    }

    /// The last of the pixels still to come, if there is one.
    pub fn next_back(&mut self) -> (item: Option<PixelRef<'a, P>>)
        ensures
            final(self).store() == old(self).store(),
            final(self).front_index() == old(self).front_index(),
            0 <= old(self).front_index() <= old(self).back_index(),
            old(self).front_index() == old(self).back_index() ==> item.is_none()
                && final(self).back_index() == old(self).back_index(),
            old(self).front_index() < old(self).back_index() ==> (item matches Some(pixel)
                && pixel@ == chunk(old(self).store(), P::channels(), old(self).back_index() - 1))
                && final(self).back_index() == old(self).back_index() - 1,
    {
        proof {
            use_type_invariant(&*self);
        }
        if self.front >= self.back {
            return None;
        }
        let no_channels: usize = P::channel_count();
        let all: &'a [P::Subpixel] = self.samples;
        let available: usize = all.len();
        proof {
            P::lemma_channels();
            assert(0 <= (self.back - 1) * no_channels && (self.back - 1) * no_channels
                + no_channels <= available) by (nonlinear_arith)
                requires
                    self.back >= 1,
                    no_channels >= 1,
                    self.back * no_channels <= available,
            ;
            assert((self.back - 1) * no_channels == P::channels() * (self.back - 1))
                by (nonlinear_arith)
                requires
                    no_channels == P::channels(),
            ;
        }
        let start: usize = (self.back - 1) * no_channels;
        let pixel = PixelRef::from_slice(
            vstd::slice::slice_subrange(all, start, start + no_channels),
        );
        proof {
            assert((self.back - 1) * P::channels() <= self.back * P::channels())
                by (nonlinear_arith)
                requires
                    self.back >= 1,
                    P::channels() >= 1,
            ;
        }
        self.back = self.back - 1;
        Some(pixel)
    }
}

/// Walks over the pixels of an image as `PixelRefs` does and gives each
/// pixel with its column and its row.
pub struct EnumeratePixels<'a, P: Pixel> {
    pixels: PixelRefs<'a, P>,
    x: u32,
    y: u32,
    width: u32,
}

impl<'a, P: Pixel> EnumeratePixels<'a, P> {
    #[verifier::type_invariant]
    spec fn counted(self) -> bool {
        &&& self.pixels.front <= self.pixels.back
        &&& self.pixels.back <= self.width * u32::MAX
        &&& self.pixels.front < self.pixels.back ==> {
            &&& self.x <= self.width
            &&& self.y * self.width + self.x == self.pixels.front
        }
    }

    /// The store that is walked over.
    pub closed spec fn store(&self) -> Seq<P::Subpixel> {
        self.pixels.store()
    }

    /// The place of the pixel that comes next from the front.
    pub closed spec fn front_index(&self) -> int {
        self.pixels.front_index()
    }

    /// One more than the place of the pixel that comes next from the back.
    pub closed spec fn back_index(&self) -> int {
        self.pixels.back_index()
    }

    /// The width of the image, by which columns and rows are counted.
    pub closed spec fn row_length(&self) -> u32 {
        self.width
    }

    /// The pixel at place `i`, with its column and its row.
    pub open spec fn entry(&self, i: int) -> (u32, u32, Seq<P::Subpixel>) {
        (
            column_of(self.row_length(), i) as u32,
            row_of(self.row_length(), i) as u32,
            chunk(self.store(), P::channels(), i),
        )
    }

    /// The pixels still to come, front to back.
    pub open spec fn remaining(&self) -> Seq<(u32, u32, Seq<P::Subpixel>)> {
        Seq::new(
            (self.back_index() - self.front_index()) as nat,
            |k: int| self.entry(self.front_index() + k),
        )
    }

    /// The first of the pixels still to come, if there is one, behind its
    /// column and its row.
    pub fn next(&mut self) -> (item: Option<(u32, u32, PixelRef<'a, P>)>)
        ensures
            final(self).store() == old(self).store(),
            final(self).row_length() == old(self).row_length(),
            final(self).back_index() == old(self).back_index(),
            0 <= old(self).front_index() <= old(self).back_index(),
            old(self).front_index() == old(self).back_index() ==> item.is_none()
                && final(self).front_index() == old(self).front_index(),
            old(self).front_index() < old(self).back_index() ==> (item matches Some(found) && (
                found.0,
                found.1,
                found.2@,
            ) == old(self).entry(old(self).front_index())) && final(self).front_index()
                == old(self).front_index() + 1,
    {
        proof {
            use_type_invariant(&*self);
        }
        let mut pixels = self.pixels.clone();
        match pixels.next() {
            None => None,
            Some(pixel) => {
                let mut x: u32 = self.x;
                let mut y: u32 = self.y;
                let width: u32 = self.width;
                proof {
                    assert(self.width > 0) by (nonlinear_arith)
                        requires
                            self.pixels.back <= self.width * u32::MAX,
                            self.pixels.back > 0,
                    ;
                    if x >= width {
                        assert(y + 1 < u32::MAX) by (nonlinear_arith)
                            requires
                                y * width + width < width * u32::MAX,
                                width > 0,
                        ;
                        assert((y + 1) * width + 0 == y * width + x) by (nonlinear_arith)
                            requires
                                x == width,
                        ;
                    }
                }
                if x >= width {
                    x = 0;
                    y = y + 1;
                }
                proof {
                    lemma_coordinate_of_index(width, x, y);
                }
                *self = EnumeratePixels { pixels, x: x + 1, y, width };
                Some((x, y, pixel))
            },
        }
    }

    /// The last of the pixels still to come, if there is one, behind its
    /// column and its row.
    pub fn next_back(&mut self) -> (item: Option<(u32, u32, PixelRef<'a, P>)>)
        ensures
            final(self).store() == old(self).store(),
            final(self).row_length() == old(self).row_length(),
            final(self).front_index() == old(self).front_index(),
            0 <= old(self).front_index() <= old(self).back_index(),
            old(self).front_index() == old(self).back_index() ==> item.is_none()
                && final(self).back_index() == old(self).back_index(),
            old(self).front_index() < old(self).back_index() ==> (item matches Some(found) && (
                found.0,
                found.1,
                found.2@,
            ) == old(self).entry(old(self).back_index() - 1)) && final(self).back_index()
                == old(self).back_index() - 1,
    {
        proof {
            use_type_invariant(&*self);
        }
        let mut pixels = self.pixels.clone();
        let ghost place = self.pixels.back - 1;
        match pixels.next_back() {
            None => None,
            Some(pixel) => {
                let width: u32 = self.width;
                proof {
                    assert(self.width > 0) by (nonlinear_arith)
                        requires
                            self.pixels.back <= self.width * u32::MAX,
                            self.pixels.back > 0,
                    ;
                    assert(place / (width as int) < u32::MAX && 0 <= place % (width as int)
                        < width && 0 <= place / (width as int)) by (nonlinear_arith)
                        requires
                            0 <= place < width * u32::MAX,
                            width > 0,
                    ;
                }
                let index: usize = pixels.back;
                let x: u32 = (index % width as usize) as u32;
                let y: u32 = (index / width as usize) as u32;
                *self = EnumeratePixels { pixels, x: self.x, y: self.y, width };
                Some((x, y, pixel))
            },
        }
    }
}

/// Walks over the pixels of an image in the order of the store, from either
/// end, and hands each out to be written where it lies. What is written to
/// a pixel is written to `samples`, the store of the image.
pub struct PixelsMut<'a, P: Pixel> {
    /// The store that is walked over.
    pub samples: &'a mut [P::Subpixel],
    /// The place of the pixel that comes next from the front.
    pub front: usize,
    /// One more than the place of the pixel that comes next from the back.
    pub back: usize,
}

impl<'a, P: Pixel> PixelsMut<'a, P> {
    /// The pixels still to come lie inside the store.
    pub open spec fn wf(&self) -> bool {
        &&& self.front <= self.back
        &&& self.back * P::channels() <= self.samples@.len()
    }

    /// The pixels still to come, each as its samples, front to back.
    pub open spec fn remaining(&self) -> Seq<Seq<P::Subpixel>> {
        Seq::new(
            (self.back - self.front) as nat,
            |k: int| chunk(self.samples@, P::channels(), self.front + k),
        )
    }

    /// The first of the pixels still to come, if there is one. The walk
    /// goes on when the pixel has been let go.
    pub fn next(&mut self) -> (item: Option<PixelMut<'_, P>>)
        requires
            old(self).wf(),
        ensures
            final(self).back == old(self).back,
            final(final(self).samples)@ == final(old(self).samples)@,
            old(self).front == old(self).back ==> item.is_none() && final(self).front
                == old(self).front && final(self).samples@ == old(self).samples@,
            old(self).front < old(self).back ==> (item matches Some(pixel) && pixel.wf()
                && pixel.samples@ == chunk(
                old(self).samples@,
                P::channels(),
                old(self).front as int,
            ) && final(self).samples@ == with_chunk(
                old(self).samples@,
                P::channels(),
                old(self).front as int,
                final(pixel.samples)@,
            )) && final(self).front == old(self).front + 1,
    {
        if self.front >= self.back {
            return None;
        }
        let no_channels: usize = P::channel_count();
        let available: usize = self.samples.len();
        proof {
            P::lemma_channels();
            assert(0 <= self.front * no_channels && self.front * no_channels + no_channels
                <= available) by (nonlinear_arith)
                requires
                    0 <= self.front < self.back,
                    no_channels >= 1,
                    self.back * no_channels <= available,
            ;
            assert(self.front * no_channels == P::channels() * self.front) by (nonlinear_arith)
                requires
                    no_channels == P::channels(),
            ;
        }
        let start: usize = self.front * no_channels;
        self.front = self.front + 1;
        let (_before, rest) = self.samples.split_at_mut(start);
        let (samples, _after) = rest.split_at_mut(no_channels);
        Some(PixelMut::from_slice_mut(samples))
    }

    /// The last of the pixels still to come, if there is one. The walk goes
    /// on when the pixel has been let go.
    pub fn next_back(&mut self) -> (item: Option<PixelMut<'_, P>>)
        requires
            old(self).wf(),
        ensures
            final(self).front == old(self).front,
            final(final(self).samples)@ == final(old(self).samples)@,
            old(self).front == old(self).back ==> item.is_none() && final(self).back
                == old(self).back && final(self).samples@ == old(self).samples@,
            old(self).front < old(self).back ==> (item matches Some(pixel) && pixel.wf()
                && pixel.samples@ == chunk(
                old(self).samples@,
                P::channels(),
                old(self).back - 1,
            ) && final(self).samples@ == with_chunk(
                old(self).samples@,
                P::channels(),
                old(self).back - 1,
                final(pixel.samples)@,
            )) && final(self).back == old(self).back - 1,
    {
        if self.front >= self.back {
            return None;
        }
        let no_channels: usize = P::channel_count();
        let available: usize = self.samples.len();
        proof {
            P::lemma_channels();
            assert(0 <= (self.back - 1) * no_channels && (self.back - 1) * no_channels
                + no_channels <= available) by (nonlinear_arith)
                requires
                    self.back >= 1,
                    no_channels >= 1,
                    self.back * no_channels <= available,
            ;
            assert((self.back - 1) * no_channels == P::channels() * (self.back - 1))
                by (nonlinear_arith)
                requires
                    no_channels == P::channels(),
            ;
        }
        let start: usize = (self.back - 1) * no_channels;
        self.back = self.back - 1;
        let (_before, rest) = self.samples.split_at_mut(start);
        let (samples, _after) = rest.split_at_mut(no_channels);
        Some(PixelMut::from_slice_mut(samples))
    }
}

/// Walks over the pixels of an image as `PixelsMut` does and hands each
/// pixel out behind its column and its row.
pub struct EnumeratePixelsMut<'a, P: Pixel> {
    /// The walk over the pixels.
    pub pixels: PixelsMut<'a, P>,
    /// The column counted so far.
    pub x: u32,
    /// The row counted so far.
    pub y: u32,
    /// The width of the image, by which columns and rows are counted.
    pub width: u32,
}

impl<'a, P: Pixel> EnumeratePixelsMut<'a, P> {
    /// The pixels still to come lie inside the store, and column and row
    /// are those of the pixel that comes next from the front.
    pub open spec fn wf(&self) -> bool {
        &&& self.pixels.wf()
        &&& self.pixels.back <= self.width * u32::MAX
        &&& self.pixels.front < self.pixels.back ==> {
            &&& self.x <= self.width
            &&& self.y * self.width + self.x == self.pixels.front
        }
    }

    /// The first of the pixels still to come, if there is one, behind its
    /// column and its row.
    pub fn next(&mut self) -> (item: Option<(u32, u32, PixelMut<'_, P>)>)
        requires
            old(self).wf(),
        ensures
            final(self).width == old(self).width,
            final(self).pixels.back == old(self).pixels.back,
            final(final(self).pixels.samples)@ == final(old(self).pixels.samples)@,
            old(self).pixels.front == old(self).pixels.back ==> item.is_none()
                && final(self).pixels.front == old(self).pixels.front
                && final(self).pixels.samples@ == old(self).pixels.samples@,
            old(self).pixels.front < old(self).pixels.back ==> (item matches Some(found)
                && found.0 == column_of(old(self).width, old(self).pixels.front as int)
                && found.1 == row_of(old(self).width, old(self).pixels.front as int)
                && found.2.wf() && found.2.samples@ == chunk(
                old(self).pixels.samples@,
                P::channels(),
                old(self).pixels.front as int,
            ) && final(self).pixels.samples@ == with_chunk(
                old(self).pixels.samples@,
                P::channels(),
                old(self).pixels.front as int,
                final(found.2.samples)@,
            )) && final(self).pixels.front == old(self).pixels.front + 1,
            final(self).pixels.front < final(self).pixels.back ==>
                final(self).x <= final(self).width
                && final(self).y * final(self).width + final(self).x == final(self).pixels.front,
    {
        if self.pixels.front >= self.pixels.back {
            return None;
        }
        let width: u32 = self.width;
        proof {
            assert(self.width > 0) by (nonlinear_arith)
                requires
                    self.pixels.back <= self.width * u32::MAX,
                    self.pixels.back > 0,
            ;
            if self.x >= width {
                assert(self.y + 1 < u32::MAX) by (nonlinear_arith)
                    requires
                        self.y * width + width < width * u32::MAX,
                        width > 0,
                ;
                assert((self.y + 1) * width + 0 == self.y * width + self.x) by (nonlinear_arith)
                    requires
                        self.x == width,
                ;
            }
        }
        if self.x >= width {
            self.x = 0;
            self.y = self.y + 1;
        }
        let x: u32 = self.x;
        let y: u32 = self.y;
        proof {
            lemma_coordinate_of_index(width, x, y);
        }
        self.x = self.x + 1;
        match self.pixels.next() {
            None => None,
            Some(pixel) => Some((x, y, pixel)),
        }
    }

    /// The last of the pixels still to come, if there is one, behind its
    /// column and its row.
    pub fn next_back(&mut self) -> (item: Option<(u32, u32, PixelMut<'_, P>)>)
        requires
            old(self).wf(),
        ensures
            final(self).width == old(self).width,
            final(self).x == old(self).x,
            final(self).y == old(self).y,
            final(self).pixels.front == old(self).pixels.front,
            final(final(self).pixels.samples)@ == final(old(self).pixels.samples)@,
            old(self).pixels.front == old(self).pixels.back ==> item.is_none()
                && final(self).pixels.back == old(self).pixels.back && final(self).pixels.samples@
                == old(self).pixels.samples@,
            old(self).pixels.front < old(self).pixels.back ==> (item matches Some(found)
                && found.0 == column_of(old(self).width, old(self).pixels.back - 1) && found.1
                == row_of(old(self).width, old(self).pixels.back - 1) && found.2.wf()
                && found.2.samples@ == chunk(
                old(self).pixels.samples@,
                P::channels(),
                old(self).pixels.back - 1,
            ) && final(self).pixels.samples@ == with_chunk(
                old(self).pixels.samples@,
                P::channels(),
                old(self).pixels.back - 1,
                final(found.2.samples)@,
            )) && final(self).pixels.back == old(self).pixels.back - 1,
    {
        if self.pixels.front >= self.pixels.back {
            return None;
        }
        let width: u32 = self.width;
        let index: usize = self.pixels.back - 1;
        proof {
            assert(self.width > 0) by (nonlinear_arith)
                requires
                    self.pixels.back <= self.width * u32::MAX,
                    self.pixels.back > 0,
            ;
            assert(index as int / (width as int) < u32::MAX && 0 <= index as int % (width as int)
                < width && 0 <= index as int / (width as int)) by (nonlinear_arith)
                requires
                    0 <= index < width * u32::MAX,
                    width > 0,
            ;
        }
        let x: u32 = (index % width as usize) as u32;
        let y: u32 = (index / width as usize) as u32;
        match self.pixels.next_back() {
            None => None,
            Some(pixel) => Some((x, y, pixel)),
        }
    }
}

/// An image whose samples lie row by row in one store.
pub struct ImageBuffer<P: Pixel, C> {
    width: u32,
    height: u32,
    _phantom: PhantomData<P>,
    data: C,
}

impl<P: Pixel, C: Container<P::Subpixel> + Clone> Clone for ImageBuffer<P, C> {
    /// An image of the same width and height over a clone of the store.
    fn clone(&self) -> (copy: ImageBuffer<P, C>)
        ensures
            copy.spec_dimensions() == self.spec_dimensions(),
    {
        ImageBuffer {
            data: self.data.clone(),
            width: self.width,
            height: self.height,
            _phantom: PhantomData,
        }
    }
}

impl<P: Pixel, C: Container<P::Subpixel>> Deref for ImageBuffer<P, C> {
    type Target = [P::Subpixel];

    /// The whole store, as a slice.
    fn deref(&self) -> (s: &[P::Subpixel])
        ensures
            s@ == self@,
    {
        self.data.as_samples()
    }
}

impl<P: Pixel, C: ContainerMut<P::Subpixel>> DerefMut for ImageBuffer<P, C> {
    /// The whole store, as a slice to write through.
    fn deref_mut(&mut self) -> (s: &mut [P::Subpixel])
        ensures
            s@ == old(self)@,
            final(self)@ == final(s)@,
            final(self).spec_dimensions() == old(self).spec_dimensions(),
    {
        self.data.as_samples_mut()
    }
}

/// Whether `width * height` pixels of `channels` samples each
/// fit into `available` samples.
fn fits(width: u32, height: u32, channels: usize, available: usize) -> (b: bool)
    ensures
        b == (width * height * channels <= available),
{
    assert(width * height <= 0xffff_ffff * 0xffff_ffff) by (nonlinear_arith)
        requires
            width <= 0xffff_ffff,
            height <= 0xffff_ffff,
    ;
    let pixels: u128 = width as u128 * height as u128;
    assert(pixels * channels <= 0xffff_ffff * 0xffff_ffff * 0xffff_ffff_ffff_ffff)
        by (nonlinear_arith)
        requires
            0 <= pixels <= 0xffff_ffff * 0xffff_ffff,
            0 <= channels <= 0xffff_ffff_ffff_ffff,
    ;
    pixels * (channels as u128) <= available as u128
}

impl<P: Pixel, C: Container<P::Subpixel>> ImageBuffer<P, C> {
    /// The samples of the store, in order.
    pub closed spec fn view(&self) -> Seq<P::Subpixel> {
        self.data.contents()
    }

    /// The width in pixels.
    pub closed spec fn spec_width(&self) -> u32 {
        self.width
    }

    /// The height in pixels.
    pub closed spec fn spec_height(&self) -> u32 {
        self.height
    }

    /// Width and height in pixels.
    pub open spec fn spec_dimensions(&self) -> (u32, u32) {
        (self.spec_width(), self.spec_height())
    }

    /// The store holds every pixel of the image.
    pub open spec fn wf(&self) -> bool {
        self@.len() >= self.spec_width() * self.spec_height() * P::channels()
    }

    /// The coordinate lies inside the image.
    pub open spec fn spec_in_bounds(&self, x: u32, y: u32) -> bool {
        x < self.spec_width() && y < self.spec_height()
    }

    /// The index in the store of the first sample of the pixel at `(x, y)`.
    pub open spec fn offset(&self, x: u32, y: u32) -> int {
        sample_index(P::channels(), self.spec_width(), x, y)
    }

    /// The samples of the pixel at `(x, y)`.
    pub open spec fn samples_at(&self, x: u32, y: u32) -> Seq<P::Subpixel> {
        chunk(self@, P::channels(), pixel_index(self.spec_width(), x, y))
    }

    /// Makes an image of a store that is there. There is no image where the
    /// store is too small for `width * height` pixels.
    pub fn from_raw(width: u32, height: u32, buf: C) -> (image: Option<ImageBuffer<P, C>>)
        ensures
            width * height * P::channels() <= buf.contents().len() ==> (image matches Some(b)
                && b.wf() && b@ == buf.contents() && b.spec_width() == width && b.spec_height()
                == height),
            width * height * P::channels() > buf.contents().len() ==> image.is_none(),
    {
        let available: usize = buf.as_samples().len();
        if fits(width, height, P::channel_count(), available) {
            Some(ImageBuffer { data: buf, width, height, _phantom: PhantomData })
        } else {
            None
        }
    }

    /// Gives the store back.
    pub fn into_raw(self) -> (buf: C)
        ensures
            buf.contents() == self@,
    {
        self.data
    }

    /// Width and height of the image.
    #[verifier::when_used_as_spec(spec_dimensions)]
    pub fn dimensions(&self) -> (d: (u32, u32))
        ensures
            d == self.spec_dimensions(),
    {
        (self.width, self.height)
    }

    /// The width of the image.
    #[verifier::when_used_as_spec(spec_width)]
    pub fn width(&self) -> (w: u32)
        ensures
            w == self.spec_width(),
    {
        self.width
    }

    /// The height of the image.
    #[verifier::when_used_as_spec(spec_height)]
    pub fn height(&self) -> (h: u32)
        ensures
            h == self.spec_height(),
    {
        self.height
    }

    /// How many pixels the image has.
    fn pixel_count(&self) -> (count: usize)
        requires
            self.wf(),
        ensures
            count == self.spec_width() * self.spec_height(),
            count * P::channels() <= self@.len(),
    {
        let available: usize = self.data.as_samples().len();
        proof {
            P::lemma_channels();
            assert(0 <= self.width * self.height <= self.width * self.height * P::channels())
                by (nonlinear_arith)
                requires
                    1 <= P::channels(),
                    0 <= self.width,
                    0 <= self.height,
            ;
        }
        self.width as usize * self.height as usize
    }

    /// Walks over the pixels of the image in the order of the store.
    pub fn pixels<'a>(&'a self) -> (iter: PixelRefs<'a, P>)
        requires
            self.wf(),
        ensures
            iter.store() == self@,
            iter.front_index() == 0,
            iter.back_index() == self.spec_width() * self.spec_height(),
            iter.remaining() == pixel_chunks(
                self@,
                P::channels(),
                (self.spec_width() * self.spec_height()) as nat,
            ),
    {
        let count: usize = self.pixel_count();
        let iter = PixelRefs { samples: self.data.as_samples(), front: 0, back: count };
        proof {
            assert(iter.remaining() =~= pixel_chunks(self@, P::channels(), count as nat));
        }
        iter
    }

    /// Walks over the pixels of the image in the order of the store and gives
    /// each with its column and its row.
    pub fn enumerate_pixels<'a>(&'a self) -> (iter: EnumeratePixels<'a, P>)
        requires
            self.wf(),
        ensures
            iter.store() == self@,
            iter.row_length() == self.spec_width(),
            iter.front_index() == 0,
            iter.back_index() == self.spec_width() * self.spec_height(),
            iter.remaining() == enumeration(
                self@,
                P::channels(),
                self.spec_width(),
                self.spec_height(),
            ),
    {
        proof {
            assert(self.width * self.height <= self.width * u32::MAX) by (nonlinear_arith)
                requires
                    self.height <= u32::MAX,
                    0 <= self.width,
            ;
        }
        let iter = EnumeratePixels { pixels: self.pixels(), x: 0, y: 0, width: self.width };
        proof {
            assert(iter.remaining() =~= enumeration(
                self@,
                P::channels(),
                self.spec_width(),
                self.spec_height(),
            ));
        }
        iter
    }

    /// The index in the store of the first sample of the pixel at `(x, y)`.
    fn index_of(&self, x: u32, y: u32) -> (index: usize)
        requires
            self.wf(),
            self.spec_in_bounds(x, y),
        ensures
            index == self.offset(x, y),
            index + P::channels() <= self@.len(),
    {
        let no_channels: usize = P::channel_count();
        let available: usize = self.data.as_samples().len();
        proof {
            let i = pixel_index(self.width, x, y);
            let count = self.width as int * self.height as int;
            P::lemma_channels();
            lemma_pixel_index_bounds(self.width, self.height, x, y);
            lemma_chunk_bounds(P::channels(), count, i);
            assert(count * P::channels() <= available);
        }
        no_channels * (y as usize * self.width as usize + x as usize)
    }

    /// The pixel at `(x, y)`, seen where it lies in the store.
    pub fn get_pixel(&self, x: u32, y: u32) -> (pixel: PixelRef<'_, P>)
        requires
            self.wf(),
            self.spec_in_bounds(x, y),
        ensures
            pixel@ == self.samples_at(x, y),
    {
        let no_channels: usize = P::channel_count();
        let index: usize = self.index_of(x, y);
        let all = self.data.as_samples();
        let available: usize = all.len();
        PixelRef::from_slice(vstd::slice::slice_subrange(all, index, index + no_channels))
    }
}

impl<P: Pixel, C: ContainerMut<P::Subpixel>> ImageBuffer<P, C> {
    /// Walks over the pixels of the image in the order of the store and hands
    /// each out to be written where it lies.
    pub fn pixels_mut(&mut self) -> (iter: PixelsMut<'_, P>)
        requires
            old(self).wf(),
        ensures
            iter.wf(),
            iter.samples@ == old(self)@,
            iter.front == 0,
            iter.back == old(self).spec_width() * old(self).spec_height(),
            final(self)@ == final(iter.samples)@,
            final(self).spec_dimensions() == old(self).spec_dimensions(),
    {
        let count: usize = self.pixel_count();
        PixelsMut { samples: self.data.as_samples_mut(), front: 0, back: count }
    }

    /// Walks over the pixels of the image in the order of the store and hands
    /// each out, behind its column and its row, to be written where it lies.
    pub fn enumerate_pixels_mut<'a>(&'a mut self) -> (iter: EnumeratePixelsMut<'a, P>)
        requires
            old(self).wf(),
        ensures
            iter.wf(),
            iter.width == old(self).spec_width(),
            iter.pixels.samples@ == old(self)@,
            iter.pixels.front == 0,
            iter.pixels.back == old(self).spec_width() * old(self).spec_height(),
            final(self)@ == final(iter.pixels.samples)@,
            final(self).spec_dimensions() == old(self).spec_dimensions(),
    {
        let width: u32 = self.width;
        proof {
            assert(self.width * self.height <= self.width * u32::MAX) by (nonlinear_arith)
                requires
                    self.height <= u32::MAX,
                    0 <= self.width,
            ;
        }
        EnumeratePixelsMut { pixels: self.pixels_mut(), x: 0, y: 0, width }
    }

    /// The pixel at `(x, y)`, seen where it lies in the store, to be written
    /// in place. What is written to it is written to the image, and nothing
    /// else of the image changes.
    pub fn get_pixel_mut(&mut self, x: u32, y: u32) -> (pixel: PixelMut<'_, P>)
        requires
            old(self).wf(),
            old(self).spec_in_bounds(x, y),
        ensures
            pixel.wf(),
            pixel.samples@ == old(self).samples_at(x, y),
            final(self).spec_dimensions() == old(self).spec_dimensions(),
            final(self)@ == with_chunk(
                old(self)@,
                P::channels(),
                pixel_index(old(self).spec_width(), x, y),
                final(pixel.samples)@,
            ),
    {
        let no_channels: usize = P::channel_count();
        let index: usize = self.index_of(x, y);
        let all = self.data.as_samples_mut();
        let (_before, rest) = all.split_at_mut(index);
        let (samples, _after) = rest.split_at_mut(no_channels);
        PixelMut::from_slice_mut(samples)
    }

    /// Writes `pixel` at `(x, y)`.
    pub fn put_pixel(&mut self, x: u32, y: u32, pixel: P)
        requires
            old(self).wf(),
            old(self).spec_in_bounds(x, y),
        ensures
            final(self).wf(),
            final(self).spec_dimensions() == old(self).spec_dimensions(),
            final(self)@ == with_chunk(
                old(self)@,
                P::channels(),
                pixel_index(old(self).spec_width(), x, y),
                pixel.samples(),
            ),
            final(self).samples_at(x, y) == pixel.samples(),
            final(self)@.len() == old(self)@.len(),
    {
        proof {
            P::lemma_samples(pixel, pixel);
            P::lemma_channels();
            lemma_pixel_index_bounds(old(self).spec_width(), old(self).spec_height(), x, y);
            lemma_chunk_bounds(
                P::channels(),
                old(self).spec_width() as int * old(self).spec_height() as int,
                pixel_index(old(self).spec_width(), x, y),
            );
        }
        let mut place = self.get_pixel_mut(x, y);
        place.set(pixel);
        proof {
            let i = pixel_index(old(self).spec_width(), x, y);
            let after = with_chunk(old(self)@, P::channels(), i, pixel.samples());
            assert(chunk(after, P::channels(), i) =~= pixel.samples());
        }
    }
}

impl<P: Pixel> ImageBuffer<P, Vec<P::Subpixel>> {
    /// An image of `width` by `height` pixels whose samples are all zero.
    pub fn new(width: u32, height: u32) -> (image: ImageBuffer<P, Vec<P::Subpixel>>)
        requires
            width * height * P::channels() <= usize::MAX,
        ensures
            image.wf(),
            image.spec_dimensions() == (width, height),
            image@.len() == width * height * P::channels(),
            forall|i: int|
                0 <= i < image@.len() ==> #[trigger] image@[i]
                    == <P::Subpixel as Primitive>::zero_value(),
    {
        let no_channels: usize = P::channel_count();
        proof {
            P::lemma_channels();
            assert(0 <= width * height <= width * height * P::channels()) by (nonlinear_arith)
                requires
                    1 <= P::channels(),
                    0 <= width,
                    0 <= height,
            ;
        }
        let count: usize = width as usize * height as usize * no_channels;
        let zero = <P::Subpixel as Primitive>::zero();
        let mut data: Vec<P::Subpixel> = Vec::new();
        let mut i: usize = 0;
        while i < count
            invariant
                i <= count,
                data@.len() == i,
                zero == <P::Subpixel as Primitive>::zero_value(),
                forall|k: int| 0 <= k < i ==> #[trigger] data@[k] == zero,
            decreases count - i,
        {
            data.push(zero);
            i = i + 1;
        }
        ImageBuffer { data, width, height, _phantom: PhantomData }
    }

    /// An image of `width` by `height` pixels that are all `pixel`.
    pub fn from_pixel(width: u32, height: u32, pixel: P) -> (image: ImageBuffer<
        P,
        Vec<P::Subpixel>,
    >)
        requires
            width * height * P::channels() <= usize::MAX,
        ensures
            image.wf(),
            image.spec_dimensions() == (width, height),
            image@.len() == width * height * P::channels(),
            forall|x: u32, y: u32|
                x < width && y < height ==> #[trigger] image.samples_at(x, y) == pixel.samples(),
    {
        let mut buf: ImageBuffer<P, Vec<P::Subpixel>> = ImageBuffer::new(width, height);
        let ghost count = width as int * height as int;
        let ghost size = buf@.len();
        proof {
            P::lemma_channels();
            P::lemma_samples(pixel, pixel);
        }
        let mut iter = buf.pixels_mut();
        loop
            invariant
                iter.wf(),
                iter.back == count,
                iter.samples@.len() == size,
                size == count * P::channels(),
                pixel.samples().len() == P::channels(),
                after_borrow(buf)@ == final(iter.samples)@,
                after_borrow(buf).spec_dimensions() == (width, height),
                forall|k: int|
                    0 <= k < iter.front ==> #[trigger] chunk(iter.samples@, P::channels(), k)
                        == pixel.samples(),
            ensures
                iter.front == count,
            decreases iter.back - iter.front,
        {
            let ghost before = iter.samples@;
            let ghost place = iter.front as int;
            match iter.next() {
                None => {
                    break ;
                },
                Some(mut p) => {
                    p.set(pixel);
                },
            }
            proof {
                lemma_chunk_bounds(P::channels(), count, place);
                crate::layout::lemma_with_chunk(
                    before,
                    P::channels(),
                    place,
                    pixel.samples(),
                    place,
                );
                assert forall|k: int| 0 <= k < iter.front implies #[trigger] chunk(
                    iter.samples@,
                    P::channels(),
                    k,
                ) == pixel.samples() by {
                    lemma_chunk_bounds(P::channels(), count, place);
                    lemma_chunk_bounds(P::channels(), count, k);
                    crate::layout::lemma_with_chunk(
                        before,
                        P::channels(),
                        place,
                        pixel.samples(),
                        k,
                    );
                }
            }
        }
        proof {
            assert forall|x: u32, y: u32| x < width && y < height implies #[trigger] buf.samples_at(
                x,
                y,
            ) == pixel.samples() by {
                lemma_pixel_index_bounds(width, height, x, y);
            }
        }
        buf
    }

    /// An image of `width` by `height` pixels whose pixel at `(x, y)` is what
    /// `f` gives for `(x, y)`. The pixels are made row by row.
    pub fn from_fn<F>(width: u32, height: u32, f: F) -> (image: ImageBuffer<P, Vec<P::Subpixel>>)
        where F: Fn(u32, u32) -> P
        requires
            width * height * P::channels() <= usize::MAX,
            forall|x: u32, y: u32| x < width && y < height ==> call_requires(f, (x, y)),
        ensures
            image.wf(),
            image.spec_dimensions() == (width, height),
            image@.len() == width * height * P::channels(),
            forall|x: u32, y: u32|
                x < width && y < height ==> made_by(f, x, y, #[trigger] image.samples_at(x, y)),
    {
        let mut buf: ImageBuffer<P, Vec<P::Subpixel>> = ImageBuffer::new(width, height);
        let ghost count = width as int * height as int;
        let ghost size = buf@.len();
        proof {
            P::lemma_channels();
        }
        let mut iter = buf.enumerate_pixels_mut();
        loop
            invariant
                iter.wf(),
                iter.width == width,
                count == width * height,
                iter.pixels.back == count,
                iter.pixels.samples@.len() == size,
                size == count * P::channels(),
                after_borrow(buf)@ == final(iter.pixels.samples)@,
                after_borrow(buf).spec_dimensions() == (width, height),
                forall|a: u32, b: u32| a < width && b < height ==> call_requires(f, (a, b)),
                forall|a: u32, b: u32|
                    a < width && b < height && pixel_index(width, a, b) < iter.pixels.front
                        ==> made_by(
                        f,
                        a,
                        b,
                        #[trigger] chunk(
                            iter.pixels.samples@,
                            P::channels(),
                            pixel_index(width, a, b),
                        ),
                    ),
            ensures
                iter.pixels.front == count,
            decreases iter.pixels.back - iter.pixels.front,
        {
            let ghost before = iter.pixels.samples@;
            let ghost place = iter.pixels.front as int;
            let ghost written: Seq<P::Subpixel>;
            proof {
                if place < count {
                    crate::layout::lemma_index_of_coordinate(width, height, place);
                }
            }
            match iter.next() {
                None => {
                    break ;
                },
                Some((x, y, mut p)) => {
                    let pixel = f(x, y);
                    p.set(pixel);
                    proof {
                        written = pixel.samples();
                        P::lemma_samples(pixel, pixel);
                        assert(call_ensures(f, (x, y), pixel));
                        assert(made_by(f, x, y, written));
                    }
                },
            }
            proof {
                lemma_chunk_bounds(P::channels(), count, place);
                crate::layout::lemma_with_chunk(before, P::channels(), place, written, place);
                assert forall|a: u32, b: u32|
                    a < width && b < height && pixel_index(width, a, b)
                        < iter.pixels.front implies made_by(
                    f,
                    a,
                    b,
                    #[trigger] chunk(iter.pixels.samples@, P::channels(), pixel_index(width, a, b)),
                ) by {
                    let k = pixel_index(width, a, b);
                    lemma_pixel_index_bounds(width, height, a, b);
                    lemma_chunk_bounds(P::channels(), count, k);
                    crate::layout::lemma_with_chunk(before, P::channels(), place, written, k);
                    if k == place {
                        lemma_coordinate_of_index(width, a, b);
                    } else {
                        assert(made_by(f, a, b, chunk(before, P::channels(), k)));
                    }
                }
            }
        }
        proof {
            assert forall|x: u32, y: u32| x < width && y < height implies made_by(
                f,
                x,
                y,
                #[trigger] buf.samples_at(x, y),
            ) by {
                lemma_pixel_index_bounds(width, height, x, y);
                assert(made_by(
                    f,
                    x,
                    y,
                    chunk(buf@, P::channels(), pixel_index(width, x, y)),
                ));
            }
        }
        buf
    }

    /// Makes an image of a vector of samples. There is no image where the
    /// vector is too short for `width * height` pixels.
    pub fn from_vec(width: u32, height: u32, buf: Vec<P::Subpixel>) -> (image: Option<
        ImageBuffer<P, Vec<P::Subpixel>>,
    >)
        ensures
            width * height * P::channels() <= buf@.len() ==> (image matches Some(b) && b.wf()
                && b@ == buf@ && b.spec_width() == width && b.spec_height() == height),
            width * height * P::channels() > buf@.len() ==> image.is_none(),
    {
        ImageBuffer::from_raw(width, height, buf)
    }

    /// Gives the vector of samples back.
    pub fn into_vec(self) -> (buf: Vec<P::Subpixel>)
        ensures
            buf@ == self@,
    {
        self.into_raw()
    }
}

impl<P: Pixel, C: ContainerMut<P::Subpixel>> GenericImage for ImageBuffer<P, C> {
    type Pixel = P;

    open spec fn spec_dimensions(&self) -> (u32, u32) {
        (self.spec_width(), self.spec_height())
    }

    /// A buffer has its corner at the origin.
    open spec fn spec_bounds(&self) -> (u32, u32, u32, u32) {
        (0, 0, self.spec_width(), self.spec_height())
    }

    /// A buffer whose store holds every pixel has the pixels inside its
    /// width and height.
    open spec fn reaches(&self, x: u32, y: u32) -> bool {
        self.wf() && self.spec_in_bounds(x, y)
    }

    open spec fn pixel_samples(&self, x: u32, y: u32) -> Seq<P::Subpixel> {
        self.samples_at(x, y)
    }

    proof fn lemma_pixel_samples(image: Self, x: u32, y: u32) {
        lemma_pixel_index_bounds(image.spec_width(), image.spec_height(), x, y);
        lemma_chunk_bounds(
            P::channels(),
            image.spec_width() as int * image.spec_height() as int,
            pixel_index(image.spec_width(), x, y),
        );
    }

    fn dimensions(&self) -> (d: (u32, u32)) {
        (self.width, self.height)
    }

    fn bounds(&self) -> (b: (u32, u32, u32, u32)) {
        (0, 0, self.width, self.height)
    }

    fn get_pixel(&self, x: u32, y: u32) -> (pixel: P) {
        self.get_pixel(x, y).get()
    }

    fn get_pixel_mut(&mut self, x: u32, y: u32) -> (pixel: PixelMut<'_, P>) {
        let ghost before = *self;
        let pixel = self.get_pixel_mut(x, y);
        assert(final(pixel.samples)@.len() == P::channels() ==> with_chunk(
            before@,
            P::channels(),
            pixel_index(before.spec_width(), x, y),
            final(pixel.samples)@,
        ).len() == before@.len()) by {
            lemma_pixel_index_bounds(before.spec_width(), before.spec_height(), x, y);
            lemma_chunk_bounds(
                P::channels(),
                before.spec_width() as int * before.spec_height() as int,
                pixel_index(before.spec_width(), x, y),
            );
        }
        assert forall|a: u32, b: u32|
            before.spec_in_bounds(a, b) && final(pixel.samples)@.len()
                == P::channels() implies with_chunk(
            before@,
            P::channels(),
            pixel_index(before.spec_width(), x, y),
            final(pixel.samples)@,
        ).len() == before@.len() && (#[trigger] chunk(
            with_chunk(
                before@,
                P::channels(),
                pixel_index(before.spec_width(), x, y),
                final(pixel.samples)@,
            ),
            P::channels(),
            pixel_index(before.spec_width(), a, b),
        )) == (if a == x && b == y {
            final(pixel.samples)@
        } else {
            before.samples_at(a, b)
        }) by {
            lemma_put_frame::<P>(
                before@,
                before.spec_width(),
                before.spec_height(),
                x,
                y,
                final(pixel.samples)@,
                a,
                b,
            );
        }
        pixel
    }

    fn put_pixel(&mut self, x: u32, y: u32, pixel: P) {
        let ghost before = *self;
        self.put_pixel(x, y, pixel);
        proof {
            P::lemma_samples(pixel, pixel);
            assert forall|a: u32, b: u32|
                before.reaches(a, b) && !(a == x && b == y) implies #[trigger] self.pixel_samples(
                a,
                b,
            ) == before.pixel_samples(a, b) by {
                lemma_put_frame::<P>(
                    before@,
                    before.spec_width(),
                    before.spec_height(),
                    x,
                    y,
                    pixel.samples(),
                    a,
                    b,
                );
            }
        }
    }
}

/// `samples` are the samples of a pixel that `f` can give for `(x, y)`.
pub open spec fn made_by<P: Pixel, F: Fn(u32, u32) -> P>(
    f: F,
    x: u32,
    y: u32,
    samples: Seq<P::Subpixel>,
) -> bool {
    exists|p: P| #[trigger] call_ensures(f, (x, y), p) && p.samples() == samples
}

/// Writing the pixel at `(x, y)` keeps the size of the store, makes the
/// samples at `(x, y)` the ones written, and leaves the samples at every
/// other coordinate of the image as they were.
pub proof fn lemma_put_frame<P: Pixel>(
    store: Seq<P::Subpixel>,
    width: u32,
    height: u32,
    x: u32,
    y: u32,
    samples: Seq<P::Subpixel>,
    a: u32,
    b: u32,
)
    requires
        store.len() >= width * height * P::channels(),
        x < width,
        y < height,
        a < width,
        b < height,
        samples.len() == P::channels(),
    ensures
        ({
            let after = with_chunk(store, P::channels(), pixel_index(width, x, y), samples);
            &&& after.len() == store.len()
            &&& (a == x && b == y) ==> chunk(after, P::channels(), pixel_index(width, a, b))
                == samples
            &&& !(a == x && b == y) ==> chunk(after, P::channels(), pixel_index(width, a, b))
                == chunk(store, P::channels(), pixel_index(width, a, b))
        }),
{
    let n = P::channels();
    let count = width as int * height as int;
    let i = pixel_index(width, x, y);
    let j = pixel_index(width, a, b);
    lemma_pixel_index_bounds(width, height, x, y);
    lemma_pixel_index_bounds(width, height, a, b);
    lemma_chunk_bounds(n, count, i);
    lemma_chunk_bounds(n, count, j);
    if i == j {
        crate::layout::lemma_pixel_index_injective(width, x, y, a, b);
    }
    crate::layout::lemma_with_chunk(store, n, i, samples, j);
}

/// Pixel addressing: in an image of `width` by `height` pixels, writing the
/// pixel `v` at a coordinate inside the image and then reading the pixel at
/// the same coordinate gives `v`, and the samples written and read are the
/// `channels` samples of the store that start at
/// `channels * (y * width + x)`.
pub proof fn lemma_pixel_addressing<P: Pixel>(
    store: Seq<P::Subpixel>,
    width: u32,
    height: u32,
    x: u32,
    y: u32,
    v: P,
    read: P,
)
    requires
        store.len() >= width * height * P::channels(),
        x < width,
        y < height,
        read.samples() == chunk(
            with_chunk(store, P::channels(), pixel_index(width, x, y), v.samples()),
            P::channels(),
            pixel_index(width, x, y),
        ),
    ensures
        read == v,
        ({
            let first = P::channels() * (y * width + x);
            let after = with_chunk(store, P::channels(), pixel_index(width, x, y), v.samples());
            &&& 0 <= first
            &&& first + P::channels() <= store.len()
            &&& after.len() == store.len()
            &&& after.subrange(first, first + P::channels()) == v.samples()
            &&& after.subrange(0, first) == store.subrange(0, first)
            &&& after.subrange(first + P::channels(), store.len() as int) == store.subrange(
                first + P::channels(),
                store.len() as int,
            )
        }),
{
    P::lemma_samples(v, v);
    lemma_put_frame::<P>(store, width, height, x, y, v.samples(), x, y);
    P::lemma_samples(read, v);
    let first = P::channels() * (y * width + x);
    let after = with_chunk(store, P::channels(), pixel_index(width, x, y), v.samples());
    lemma_pixel_index_bounds(width, height, x, y);
    lemma_chunk_bounds(P::channels(), width as int * height as int, pixel_index(width, x, y));
    assert(after.subrange(0, first) =~= store.subrange(0, first));
    assert(after.subrange(first + P::channels(), store.len() as int) =~= store.subrange(
        first + P::channels(),
        store.len() as int,
    ));
}

/// Walking forward gives the coordinates in rising order, rows first: of
/// two pixels of the enumeration the earlier lies in an earlier row, or in
/// the same row and an earlier column. Both lie inside the image.
pub proof fn lemma_enumeration_rises<S>(
    store: Seq<S>,
    channels: nat,
    width: u32,
    height: u32,
    i: int,
    j: int,
)
    requires
        0 <= i < j < width * height,
    ensures
        ({
            let e = enumeration(store, channels, width, height);
            &&& e[i].0 < width && e[i].1 < height
            &&& e[j].0 < width && e[j].1 < height
            &&& e[i].1 < e[j].1 || (e[i].1 == e[j].1 && e[i].0 < e[j].0)
        }),
{
    lemma_index_of_coordinate(width, height, i);
    lemma_index_of_coordinate(width, height, j);
    let xi = column_of(width, i) as u32;
    let yi = row_of(width, i) as u32;
    let xj = column_of(width, j) as u32;
    let yj = row_of(width, j) as u32;
    lemma_pixel_index_ordered(width, xi, yi, xj, yj);
}

/// Walking forward meets every cell of the image exactly once: the pixel
/// at `(x, y)` comes at place `y * width + x`, with the samples that lie at
/// `channels * (y * width + x)`, and at no other place.
pub proof fn lemma_enumeration_covers<S>(
    store: Seq<S>,
    channels: nat,
    width: u32,
    height: u32,
    x: u32,
    y: u32,
)
    requires
        x < width,
        y < height,
    ensures
        ({
            let e = enumeration(store, channels, width, height);
            let place = pixel_index(width, x, y);
            &&& e.len() == width * height
            &&& 0 <= place < e.len()
            &&& e[place] == (x, y, store.subrange(channels * place, channels * place + channels))
            &&& forall|i: int|
                0 <= i < e.len() && (#[trigger] e[i]).0 == x && e[i].1 == y ==> i == place
        }),
{
    let e = enumeration(store, channels, width, height);
    let place = pixel_index(width, x, y);
    lemma_pixel_index_bounds(width, height, x, y);
    lemma_coordinate_of_index(width, x, y);
    assert forall|i: int| 0 <= i < e.len() && (#[trigger] e[i]).0 == x && e[i].1 == y implies i
        == place by {
        lemma_index_of_coordinate(width, height, i);
    }
}

/// Walking backward gives the pixels in the reverse of the forward order:
/// when `k` pixels have been taken from the back of a walk, the one that
/// comes next from the back is the `k`-th of the reversed walk.
pub proof fn lemma_backward_is_reverse<T>(walk: Seq<T>, k: int)
    requires
        0 <= k < walk.len(),
    ensures
        walk.subrange(0, walk.len() - k).last() == walk.reverse()[k],
{
}

/// A grey image of 16-bit samples in a vector.
pub type Gray16Image = ImageBuffer<GrayU16<u16>, Vec<u16>>;

/// A grey image of 32-bit IEEE-754 samples, held by their bits, in a vector.
pub type GrayFloatImage = ImageBuffer<GrayF32<u32>, Vec<u32>>;

} // verus!
