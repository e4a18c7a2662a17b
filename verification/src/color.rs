//! Pixel formats, pixels seen in place, and the pixel variants of the codec.

use crate::traits::{Pixel, Primitive};
use core::ops::Index;
use vstd::prelude::*;

verus! {

/// How the samples of a stream are encoded.
#[derive(Clone, Copy, Debug, PartialEq, Eq, Structural)]
pub enum PixelType {
    /// Unsigned 16-bit integers.
    Short16,
    /// 32-bit IEEE-754 numbers.
    Float32,
}

/// A pixel seen in place: the samples of one pixel where they lie in a
/// store, for reading.
pub struct PixelRef<'a, P: Pixel> {
    samples: &'a [P::Subpixel],
}

impl<'a, P: Pixel> PixelRef<'a, P> {
    #[verifier::type_invariant]
    spec fn one_pixel(self) -> bool {
        self.samples@.len() == P::channels()
    }

    /// The samples seen.
    pub closed spec fn view(&self) -> Seq<P::Subpixel> {
        self.samples@
    }

    /// Views the samples of `slice` as a pixel, in place. The slice has to
    /// hold exactly one pixel.
    pub fn from_slice(slice: &'a [P::Subpixel]) -> (r: Self)
        requires
            slice@.len() == P::channels(),
        ensures
            r@ == slice@,
    {
        PixelRef { samples: slice }
    }

    /// The samples seen, as a slice of the store.
    pub fn values(&self) -> (s: &'a [P::Subpixel])
        ensures
            s@ == self@,
            s@.len() == P::channels(),
    {
        proof {
            use_type_invariant(self);
        }
        self.samples
    }

    /// The pixel seen, copied out.
    pub fn get(&self) -> (p: P)
        ensures
            p.samples() == self@,
    {
        proof {
            use_type_invariant(self);
        }
        P::from_channels(self.samples)
    }
}

/// A pixel seen in place: the samples of one pixel where they lie in a
/// store, for reading and writing. What is written through `samples` is
/// written to the store.
pub struct PixelMut<'a, P: Pixel> {
    /// The samples of the pixel, in the store.
    pub samples: &'a mut [P::Subpixel],
}

impl<'a, P: Pixel> PixelMut<'a, P> {
    /// The view holds exactly one pixel.
    pub open spec fn wf(&self) -> bool {
        self.samples@.len() == P::channels()
    }

    /// Views the samples of `slice` as a pixel that can be written in place.
    /// The slice has to hold exactly one pixel.
    pub fn from_slice_mut(slice: &'a mut [P::Subpixel]) -> (r: Self)
        requires
            old(slice)@.len() == P::channels(),
        ensures
            r.wf(),
            r.samples@ == old(slice)@,
            final(slice)@ == final(r.samples)@,
    {
        PixelMut { samples: slice }
    }

    /// The samples seen, as a slice of the store.
    pub fn values(&self) -> (s: &[P::Subpixel])
        ensures
            s@ == old(self.samples)@,
    {
        &*self.samples
    }

    /// The pixel seen, copied out.
    pub fn get(&self) -> (p: P)
        requires
            self.wf(),
        ensures
            p.samples() == old(self.samples)@,
    {
        P::from_channels(&*self.samples)
    }

    /// Overwrites the pixel seen with `pixel`.
    pub fn set(&mut self, pixel: P)
        requires
            old(self).wf(),
        ensures
            final(self).wf(),
            final(self).samples@ == pixel.samples(),
            final(final(self).samples)@ == final(old(self).samples)@,
    {
        let source = pixel.values();
        let n: usize = P::channel_count();
        proof {
            P::lemma_samples(pixel, pixel);
        }
        let mut c: usize = 0;
        while c < n
            invariant
                c <= n,
                n == P::channels(),
                source@ == pixel.samples(),
                source@.len() == n,
                self.samples@.len() == n,
                forall|k: int| 0 <= k < c ==> self.samples@[k] == source@[k],
                final(self.samples)@ == final(old(self).samples)@,
            decreases n - c,
        {
            self.samples[c] = source[c];
            c = c + 1;
        }
        proof {
            assert(self.samples@ =~= pixel.samples());
        }
    }
}

/// A grey pixel of the 16-bit integer format: one channel.
#[derive(Clone, Copy, Debug, PartialEq, Eq, Hash)]
pub struct GrayU16<T: Primitive> {
    /// The one channel.
    pub data: [T; 1],
}

impl<T: Primitive> GrayU16<T> {
    /// The pixel whose channel is `value`.
    pub fn new(value: T) -> (p: Self)
        ensures
            p.data@ == seq![value],
    {
        let p = GrayU16 { data: [value] };
        proof {
            assert(p.data@ =~= seq![value]);
        }
        p
    }

    /// The channel of the pixel.
    pub fn value(&self) -> (v: T)
        ensures
            v == self.data@[0],
    {
        self.data[0]
    }
}

impl<T: Primitive> Pixel for GrayU16<T> {
    type Subpixel = T;

    open spec fn channels() -> nat {
        1
    }

    open spec fn format() -> PixelType {
        PixelType::Short16
    }

    open spec fn samples(&self) -> Seq<T> {
        self.data@
    }

    proof fn lemma_channels() {
    }

    proof fn lemma_samples(p: Self, q: Self) {
        if p.samples() == q.samples() {
            assert(p.data =~= q.data);
        }
    }

    fn channel_count() -> (n: usize) {
        1
    }

    fn pixel_type() -> (t: PixelType) {
        PixelType::Short16
    }

    fn values(&self) -> (s: &[T]) {
        self.data.as_slice()
    }

    fn values_mut(&mut self) -> (s: &mut [T]) {
        &mut self.data
    }

    fn from_channels(slice: &[T]) -> (p: Self) {
        let p = GrayU16 { data: [slice[0]] };
        proof {
            assert(p.data@ =~= slice@);
        }
        p
    }
}

/// A grey pixel of the 32-bit IEEE-754 format: one channel, which the
/// codec carries as the `u32` of its bits.
#[derive(Clone, Copy, Debug, PartialEq, Eq, Hash)]
pub struct GrayF32<T: Primitive> {
    /// The one channel.
    pub data: [T; 1],
}

impl<T: Primitive> GrayF32<T> {
    /// The pixel whose channel is `value`.
    pub fn new(value: T) -> (p: Self)
        ensures
            p.data@ == seq![value],
    {
        let p = GrayF32 { data: [value] };
        proof {
            assert(p.data@ =~= seq![value]);
        }
        p
    }

    /// The channel of the pixel.
    pub fn value(&self) -> (v: T)
        ensures
            v == self.data@[0],
    {
        self.data[0]
    }
}

impl<T: Primitive> Pixel for GrayF32<T> {
    type Subpixel = T;

    open spec fn channels() -> nat {
        1
    }

    open spec fn format() -> PixelType {
        PixelType::Float32
    }

    open spec fn samples(&self) -> Seq<T> {
        self.data@
    }

    proof fn lemma_channels() {
    }

    proof fn lemma_samples(p: Self, q: Self) {
        if p.samples() == q.samples() {
            assert(p.data =~= q.data);
        }
    }

    fn channel_count() -> (n: usize) {
        1
    }

    fn pixel_type() -> (t: PixelType) {
        PixelType::Float32
    }

    fn values(&self) -> (s: &[T]) {
        self.data.as_slice()
    }

    fn values_mut(&mut self) -> (s: &mut [T]) {
        &mut self.data
    }

    fn from_channels(slice: &[T]) -> (p: Self) {
        let p = GrayF32 { data: [slice[0]] };
        proof {
            assert(p.data@ =~= slice@);
        }
        p
    }
}

impl<T: Primitive> Index<usize> for GrayU16<T> {
    type Output = T;

    /// The channel at `index`.
    fn index(&self, index: usize) -> (channel: &T)
        ensures
            *channel == self.data@[index as int],
    {
        &self.data[index]
    }
}

impl<T: Primitive> vstd::std_specs::core::IndexSpecImpl<usize> for GrayU16<T> {
    open spec fn index_req(&self, index: &usize) -> bool {
        *index < 1
    }
}

impl<T: Primitive> Index<usize> for GrayF32<T> {
    type Output = T;

    /// The channel at `index`.
    fn index(&self, index: usize) -> (channel: &T)
        ensures
            *channel == self.data@[index as int],
    {
        &self.data[index]
    }
}

impl<T: Primitive> vstd::std_specs::core::IndexSpecImpl<usize> for GrayF32<T> {
    open spec fn index_req(&self, index: &usize) -> bool {
        *index < 1
    }
}

impl<'a, P: Pixel> Index<usize> for PixelRef<'a, P> {
    type Output = P::Subpixel;

    /// The channel at `index`.
    fn index(&self, index: usize) -> (channel: &P::Subpixel)
        ensures
            *channel == self@[index as int],
    {
        proof {
            use_type_invariant(self);
        }
        &self.samples[index]
    }
}

impl<'a, P: Pixel> vstd::std_specs::core::IndexSpecImpl<usize> for PixelRef<'a, P> {
    open spec fn index_req(&self, index: &usize) -> bool {
        *index < P::channels()
    }
}

} // verus!
