//! Row-major layout: where the pixel at a coordinate lies in a flat store.

use vstd::prelude::*;

verus! {

/// The place of the pixel at `(x, y)` among the pixels of an image that is
/// `width` pixels wide, counted row by row.
pub open spec fn pixel_index(width: u32, x: u32, y: u32) -> int {
    y * width + x
}

/// The index of the first sample of the pixel at `(x, y)` in the store of an
/// image that is `width` pixels wide and has `channels` samples per pixel.
pub open spec fn sample_index(channels: nat, width: u32, x: u32, y: u32) -> int {
    channels * (y * width + x)
}

/// The column of the pixel that is the `i`-th of an image `width` wide.
pub open spec fn column_of(width: u32, i: int) -> int {
    i % (width as int)
}

/// The row of the pixel that is the `i`-th of an image `width` wide.
pub open spec fn row_of(width: u32, i: int) -> int {
    i / (width as int)
}

/// The samples of the `i`-th pixel of a store with `channels` samples per
/// pixel.
pub open spec fn chunk<S>(store: Seq<S>, channels: nat, i: int) -> Seq<S> {
    store.subrange(channels * i, channels * i + channels)
}

/// `store` with the samples of its `i`-th pixel replaced by `samples`.
pub open spec fn with_chunk<S>(store: Seq<S>, channels: nat, i: int, samples: Seq<S>) -> Seq<S> {
    store.subrange(0, channels * i) + samples + store.subrange(
        channels * i + channels,
        store.len() as int,
    )
}

/// A coordinate inside an image has its place among the image's pixels.
pub proof fn lemma_pixel_index_bounds(width: u32, height: u32, x: u32, y: u32)
    requires
        x < width,
        y < height,
    ensures
        0 <= y * width,
        0 <= pixel_index(width, x, y) < width * height,
{
    assert(0 <= y * width && y * width + x < width * height) by (nonlinear_arith)
        requires
            0 <= x < width,
            0 <= y < height,
    ;
}

/// The samples of the `i`-th of `count` pixels lie inside a store that
/// holds `count` pixels.
pub proof fn lemma_chunk_bounds(channels: nat, count: int, i: int)
    requires
        0 <= i < count,
    ensures
        0 <= channels * i,
        i <= channels * i || channels == 0,
        channels * i + channels <= count * channels,
{
    assert(0 <= channels * i && channels * i + channels <= count * channels) by (nonlinear_arith)
        requires
            0 <= i < count,
            0 <= channels,
    ;
    if channels >= 1 {
        assert(i <= channels * i) by (nonlinear_arith)
            requires
                0 <= i,
                1 <= channels,
        ;
    }
}

/// Two pixels that are not the same do not share a sample.
pub proof fn lemma_chunks_disjoint(channels: nat, i: int, j: int)
    requires
        0 <= i < j,
    ensures
        channels * i + channels <= channels * j,
{
    assert(channels * i + channels <= channels * j) by (nonlinear_arith)
        requires
            0 <= i < j,
            0 <= channels,
    ;
}

/// The place of a pixel gives back its column and its row.
pub proof fn lemma_coordinate_of_index(width: u32, x: u32, y: u32)
    requires
        x < width,
    ensures
        column_of(width, pixel_index(width, x, y)) == x,
        row_of(width, pixel_index(width, x, y)) == y,
{
    let w = width as int;
    let i = y * w + x;
    assert(i % w == x && i / w == y) by (nonlinear_arith)
        requires
            0 <= x < w,
            0 <= y,
            i == y * w + x,
    ;
}

/// Column and row of a place give back the place, and stay inside an image
/// that has the place.
pub proof fn lemma_index_of_coordinate(width: u32, height: u32, i: int)
    requires
        0 <= i < width * height,
    ensures
        0 <= column_of(width, i) < width,
        0 <= row_of(width, i) < height,
        row_of(width, i) * width + column_of(width, i) == i,
{
    let w = width as int;
    let h = height as int;
    assert(w > 0) by (nonlinear_arith)
        requires
            0 <= i < w * h,
            0 <= w,
            0 <= h,
    ;
    assert(0 <= i % w < w && (i / w) * w + i % w == i && 0 <= i / w) by (nonlinear_arith)
        requires
            0 <= i,
            0 < w,
    ;
    assert(i / w < h) by (nonlinear_arith)
        requires
            0 <= i < w * h,
            0 < w,
            (i / w) * w + i % w == i,
            0 <= i % w,
    ;
}

/// Different coordinates inside an image have different places.
pub proof fn lemma_pixel_index_injective(width: u32, x1: u32, y1: u32, x2: u32, y2: u32)
    requires
        x1 < width,
        x2 < width,
        pixel_index(width, x1, y1) == pixel_index(width, x2, y2),
    ensures
        x1 == x2,
        y1 == y2,
{
    lemma_coordinate_of_index(width, x1, y1);
    lemma_coordinate_of_index(width, x2, y2);
}

/// Places follow the order of the coordinates, rows first: of two pixels of
/// an image the one in the earlier row, or in the same row and the earlier
/// column, comes first.
pub proof fn lemma_pixel_index_ordered(width: u32, x1: u32, y1: u32, x2: u32, y2: u32)
    requires
        x1 < width,
        x2 < width,
    ensures
        pixel_index(width, x1, y1) < pixel_index(width, x2, y2) <==> (y1 < y2 || (y1 == y2 && x1
            < x2)),
{
    let w = width as int;
    if y1 < y2 {
        assert(y1 * w + x1 < y2 * w + x2) by (nonlinear_arith)
            requires
                0 <= x1 < w,
                0 <= x2,
                0 <= y1 < y2,
        ;
    } else if y2 < y1 {
        assert(y2 * w + x2 < y1 * w + x1) by (nonlinear_arith)
            requires
                0 <= x2 < w,
                0 <= x1,
                0 <= y2 < y1,
        ;
    }
}

/// Replacing the samples of one pixel keeps the size of the store, puts
/// the new samples in that pixel's place and leaves every other pixel as it
/// was.
pub proof fn lemma_with_chunk<S>(store: Seq<S>, channels: nat, i: int, samples: Seq<S>, j: int)
    requires
        0 <= i,
        0 <= j,
        samples.len() == channels,
        channels * i + channels <= store.len(),
        channels * j + channels <= store.len(),
    ensures
        with_chunk(store, channels, i, samples).len() == store.len(),
        j == i ==> chunk(with_chunk(store, channels, i, samples), channels, j) == samples,
        j != i ==> chunk(with_chunk(store, channels, i, samples), channels, j) == chunk(
            store,
            channels,
            j,
        ),
{
    let after = with_chunk(store, channels, i, samples);
    assert(0 <= channels * i && 0 <= channels * j) by (nonlinear_arith)
        requires
            0 <= i,
            0 <= j,
            0 <= channels,
    ;
    if j < i {
        lemma_chunks_disjoint(channels, j, i);
    } else if i < j {
        lemma_chunks_disjoint(channels, i, j);
    }
    if j == i {
        assert(chunk(after, channels, j) =~= samples);
    } else {
        assert(chunk(after, channels, j) =~= chunk(store, channels, j));
    }
}

} // verus!
