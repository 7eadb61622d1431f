use vstd::prelude::*;
use vstd::arithmetic::div_mod::{
    lemma_div_is_ordered,
    lemma_div_multiples_vanish,
    lemma_div_pos_is_pos,
    lemma_fundamental_div_mod,
    lemma_hoist_over_denominator,
};

verus! {

/// The scanlines from `start` up to, and without, `end`: the unit of work of
/// one render worker.
#[derive(Clone, Copy, Debug, PartialEq, Eq, Structural)]
pub struct RowRange {
    pub start: u32,
    pub end: u32,
}

impl RowRange {
    /// Whether scanline `row` belongs to the range.
    pub open spec fn contains(&self, row: int) -> bool {
        self.start <= row < self.end
    }

    /// The number of scanlines in the range.
    pub fn len(&self) -> (n: u32)
        requires
            self.start <= self.end,
        ensures
            n == self.end - self.start,
    {
        self.end - self.start
    }
}

/// The first scanline of chunk `index` when `height` scanlines are cut into
/// `chunks` chunks; with `index == chunks`, the end of the last chunk.
pub open spec fn chunk_bound(height: int, chunks: int, index: int) -> int {
    (index * height) / chunks
}

/// Chunk `index` of `height` scanlines cut into `chunks` chunks.
pub open spec fn chunk(height: int, chunks: int, index: int) -> RowRange {
    RowRange {
        start: chunk_bound(height, chunks, index) as u32,
        end: chunk_bound(height, chunks, index + 1) as u32,
    }
}

/// The chunks start at scanline 0, end at `height`, and their bounds never go back.
pub proof fn lemma_chunk_bounds(height: int, chunks: int, i: int, j: int)
    requires
        0 <= height,
        0 < chunks,
        0 <= i <= j <= chunks,
    ensures
        chunk_bound(height, chunks, 0) == 0,
        chunk_bound(height, chunks, chunks) == height,
        0 <= chunk_bound(height, chunks, i) <= chunk_bound(height, chunks, j) <= height,
{
    assert(0 * height == 0) by (nonlinear_arith);
    assert(0 <= i * height <= j * height <= chunks * height) by (nonlinear_arith)
        requires
            0 <= height,
            0 <= i <= j <= chunks,
    ;
    lemma_div_multiples_vanish(height, chunks);
    lemma_div_pos_is_pos(i * height, chunks);
    lemma_div_is_ordered(i * height, j * height, chunks);
    lemma_div_is_ordered(j * height, chunks * height, chunks);
}

/// No chunk is more than one scanline longer than another: each holds the
/// whole part of `height / chunks` scanlines, or one more.
pub proof fn lemma_chunks_balanced(height: int, chunks: int, i: int)
    requires
        0 <= height,
        0 < chunks,
        0 <= i < chunks,
    ensures
        height / chunks <= chunk_bound(height, chunks, i + 1) - chunk_bound(height, chunks, i)
            <= height / chunks + 1,
{
    let q = height / chunks;
    let r = height % chunks;
    lemma_fundamental_div_mod(height, chunks);
    // With height == chunks * q + r:  i * height == (i * r) + (i * q) * chunks.
    assert(i * height == i * r + (i * q) * chunks) by (nonlinear_arith)
        requires
            height == chunks * q + r,
    ;
    assert((i + 1) * height == (i + 1) * r + ((i + 1) * q) * chunks) by (nonlinear_arith)
        requires
            height == chunks * q + r,
    ;
    lemma_hoist_over_denominator(i * r, i * q, chunks as nat);
    lemma_hoist_over_denominator((i + 1) * r, (i + 1) * q, chunks as nat);
    assert((i + 1) * q == i * q + q) by (nonlinear_arith);
    assert((i + 1) * r == i * r + r) by (nonlinear_arith);
    assert(0 <= i * r) by (nonlinear_arith)
        requires
            0 <= i,
            0 <= r,
    ;
    // The two remainders' parts differ by less than one chunk count.
    lemma_div_is_ordered(i * r, i * r + r, chunks);
    lemma_div_is_ordered(i * r + r, i * r + chunks, chunks);
    lemma_hoist_over_denominator(i * r, 1, chunks as nat);
    assert(i * r + 1 * chunks == i * r + chunks) by (nonlinear_arith);
}

/// Every scanline of the image lies in a chunk.
pub proof fn lemma_chunks_cover(height: int, chunks: int, row: int) -> (index: int)
    requires
        0 < chunks,
        0 <= row < height,
    ensures
        0 <= index < chunks,
        chunk_bound(height, chunks, index) <= row < chunk_bound(height, chunks, index + 1),
{
    lemma_chunk_bounds(height, chunks, 0, chunks);
    lemma_covering_chunk(height, chunks, row, chunks)
}

/// A scanline below the bound `upto` lies in one of the chunks before `upto`.
proof fn lemma_covering_chunk(height: int, chunks: int, row: int, upto: int) -> (index: int)
    requires
        0 < chunks,
        0 <= height,
        0 <= upto <= chunks,
        0 <= row < chunk_bound(height, chunks, upto),
    ensures
        0 <= index < upto,
        chunk_bound(height, chunks, index) <= row < chunk_bound(height, chunks, index + 1),
    decreases upto,
{
    lemma_chunk_bounds(height, chunks, 0, upto);
    if upto == 0 {
        0
    } else if chunk_bound(height, chunks, upto - 1) <= row {
        upto - 1
    } else {
        lemma_covering_chunk(height, chunks, row, upto - 1)
    }
}

/// No scanline lies in two chunks.
pub proof fn lemma_chunks_disjoint(height: int, chunks: int, row: int, i: int, j: int)
    requires
        0 <= height,
        0 < chunks,
        0 <= i < chunks,
        0 <= j < chunks,
        chunk_bound(height, chunks, i) <= row < chunk_bound(height, chunks, i + 1),
        chunk_bound(height, chunks, j) <= row < chunk_bound(height, chunks, j + 1),
    ensures
        i == j,
{
    if i < j {
        lemma_chunk_bounds(height, chunks, i + 1, j);
    }
    if j < i {
        lemma_chunk_bounds(height, chunks, j + 1, i);
    }
}

/// The bound of chunk `index`, computed without overflow.
fn bound(image_height: u32, thread_number: usize, index: usize) -> (b: u32)
    requires
        0 < thread_number,
        index <= thread_number,
    ensures
        b == chunk_bound(image_height as int, thread_number as int, index as int),
{
    proof {
        lemma_chunk_bounds(image_height as int, thread_number as int, index as int, index as int);
        assert(index * image_height <= 0x1_0000_0000_0000_0000 * 0x1_0000_0000)
            by (nonlinear_arith)
            requires
                0 <= index <= 0x1_0000_0000_0000_0000,
                0 <= image_height <= 0x1_0000_0000,
        ;
    }
    let product: u128 = (index as u128) * (image_height as u128);
    (product / (thread_number as u128)) as u32
}

/// Cuts the scanlines of an image into contiguous chunks, one for each of
/// `thread_number` workers.
pub fn partition_rows(image_height: u32, thread_number: usize) -> (ranges: Vec<RowRange>)
    requires
        0 < thread_number,
    ensures
        ranges@.len() == thread_number,
        forall|i: int|
            0 <= i < thread_number ==> #[trigger] ranges@[i] == chunk(
                image_height as int,
                thread_number as int,
                i,
            ),
        forall|i: int|
            0 <= i < thread_number ==> (#[trigger] ranges@[i]).start <= ranges@[i].end
                <= image_height,
{
    let mut ranges: Vec<RowRange> = Vec::new();
    let mut start: u32 = bound(image_height, thread_number, 0);
    let mut i: usize = 0;
    while i < thread_number
        invariant
            0 < thread_number,
            i <= thread_number,
            ranges@.len() == i,
            start == chunk_bound(image_height as int, thread_number as int, i as int),
            forall|k: int|
                0 <= k < i ==> #[trigger] ranges@[k] == chunk(
                    image_height as int,
                    thread_number as int,
                    k,
                ),
            forall|k: int|
                0 <= k < i ==> (#[trigger] ranges@[k]).start <= ranges@[k].end <= image_height,
        decreases thread_number - i,
    {
        let end = bound(image_height, thread_number, i + 1);
        proof {
            lemma_chunk_bounds(
                image_height as int,
                thread_number as int,
                i as int,
                i as int + 1,
            );
        }
        ranges.push(RowRange { start, end });
        start = end;
        i += 1;
    }
    ranges
}

} // verus!
