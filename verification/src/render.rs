use vstd::prelude::*;
use crate::canvas::{Rgb, RgbImage, image_height, image_width};
use crate::partition::{RowRange, chunk_bound, lemma_chunk_bounds};

verus! {

/// What one worker hands back: the pixels of consecutive scanlines, the first
/// of them being scanline `first_row` of the image.
pub struct RowBatch {
    pub first_row: u32,
    pub pixels: RgbImage,
}

/// A batch as the contracts see it.
pub struct BatchView {
    pub first_row: int,
    pub width: nat,
    pub rows: Seq<Seq<Rgb>>,
}

/// Why a batch was not merged into the image.
#[derive(Clone, Copy, Debug, PartialEq, Eq, Structural)]
pub enum MergeError {
    /// The scanlines of the batch are not as wide as the image.
    WidthMismatch,
    /// The batch holds scanlines that the image does not have.
    OutOfImage,
    /// The image already holds one of the scanlines of the batch.
    AlreadyWritten,
}

/// An image in the making, as the contracts see it: each scanline is either
/// still missing or holds its pixels.
pub struct AssemblyView {
    pub width: nat,
    pub rows: Seq<Option<Seq<Rgb>>>,
}

impl AssemblyView {
    /// An image of which every scanline is missing.
    pub open spec fn empty(width: nat, height: nat) -> AssemblyView {
        AssemblyView { width, rows: Seq::new(height, |y: int| None) }
    }

    /// Whether the batch holds scanline `row`.
    pub open spec fn covered(batch: BatchView, row: int) -> bool {
        batch.first_row <= row < batch.first_row + batch.rows.len()
    }

    /// Whether the image already holds a scanline of the batch.
    pub open spec fn overlaps(self, batch: BatchView) -> bool {
        exists|row: int|
            0 <= row < self.rows.len() && Self::covered(batch, row) && (#[trigger] self.rows[row])
                is Some
    }

    /// What [`Assembly::merge`] answers to the batch.
    pub open spec fn verdict(self, batch: BatchView) -> Result<(), MergeError> {
        if batch.width != self.width {
            Err(MergeError::WidthMismatch)
        } else if batch.first_row + batch.rows.len() > self.rows.len() {
            Err(MergeError::OutOfImage)
        } else if self.overlaps(batch) {
            Err(MergeError::AlreadyWritten)
        } else {
            Ok(())
        }
    }

    /// The image with the scanlines of the batch in their places.
    pub open spec fn merged(self, batch: BatchView) -> AssemblyView {
        AssemblyView {
            width: self.width,
            rows: Seq::new(
                self.rows.len(),
                |y: int|
                    if Self::covered(batch, y) {
                        Some(batch.rows[y - batch.first_row])
                    } else {
                        self.rows[y]
                    },
            ),
        }
    }

    /// Whether no scanline is missing.
    pub open spec fn complete(self) -> bool {
        forall|y: int| 0 <= y < self.rows.len() ==> (#[trigger] self.rows[y]) is Some
    }

    /// The image after the batches were handed to [`Assembly::merge`] one
    /// after another, from the first on.
    pub open spec fn merged_all(self, batches: Seq<BatchView>) -> AssemblyView
        decreases batches.len(),
    {
        if batches.len() == 0 {
            self
        } else {
            let before = self.merged_all(batches.drop_last());
            if before.verdict(batches.last()) is Ok {
                before.merged(batches.last())
            } else {
                before
            }
        }
    }

    /// The finished image that holds the scanlines of `picture`.
    pub open spec fn of_picture(width: nat, picture: Seq<Seq<Rgb>>) -> AssemblyView {
        AssemblyView { width, rows: Seq::new(picture.len(), |y: int| Some(picture[y])) }
    }
}

/// The batches that `chunks` workers hand back when scanline `y` of the image
/// comes out as `picture[y]`: one batch for each chunk of the scanlines.
pub open spec fn batches_of(width: nat, picture: Seq<Seq<Rgb>>, chunks: int) -> Seq<BatchView> {
    Seq::new(
        chunks as nat,
        |i: int|
            BatchView {
                first_row: chunk_bound(picture.len() as int, chunks, i),
                width,
                rows: picture.subrange(
                    chunk_bound(picture.len() as int, chunks, i),
                    chunk_bound(picture.len() as int, chunks, i + 1),
                ),
            },
    )
}

/// A scanline is written once: a batch that was merged is refused from then
/// on, unless it is empty, and whatever is merged later leaves its scanlines
/// as they are.
pub proof fn lemma_written_once(image: AssemblyView, batch: BatchView, later: BatchView)
    requires
        image.verdict(batch) is Ok,
        0 <= batch.first_row,
    ensures
        batch.rows.len() > 0 ==> image.merged(batch).verdict(batch) == Err::<(), MergeError>(
            MergeError::AlreadyWritten,
        ),
        image.merged(batch).verdict(later) is Ok ==> forall|y: int|
            AssemblyView::covered(batch, y) ==> #[trigger] image.merged(batch).merged(
                later,
            ).rows[y] == Some(batch.rows[y - batch.first_row]),
{
    let after = image.merged(batch);
    if batch.rows.len() > 0 {
        assert(after.rows[batch.first_row] is Some);
        assert(AssemblyView::covered(batch, batch.first_row));
    }
    if after.verdict(later) is Ok {
        assert forall|y: int| AssemblyView::covered(batch, y) implies #[trigger] after.merged(
            later,
        ).rows[y] == Some(batch.rows[y - batch.first_row]) by {
            assert(after.rows[y] is Some);
            if AssemblyView::covered(later, y) {
                assert(after.overlaps(later));
            }
        }
    }
}

/// The order in which two batches arrive does not matter: where the image
/// takes the one and then the other, it takes them the other way round too,
/// and ends up the same.
pub proof fn lemma_merge_commutes(image: AssemblyView, one: BatchView, other: BatchView)
    requires
        0 <= one.first_row,
        0 <= other.first_row,
        image.verdict(one) is Ok,
        image.merged(one).verdict(other) is Ok,
    ensures
        image.verdict(other) is Ok,
        image.merged(other).verdict(one) is Ok,
        image.merged(other).merged(one) == image.merged(one).merged(other),
{
    let first = image.merged(one);
    // Nothing of `other` is in the image, before or after `one`.
    assert forall|y: int| 0 <= y < image.rows.len() && AssemblyView::covered(other, y) implies (
    #[trigger] image.rows[y]) is None && !AssemblyView::covered(one, y) by {
        if first.rows[y] is Some {
            assert(first.overlaps(other));
        }
    }
    assert(!image.overlaps(other));
    let second = image.merged(other);
    assert forall|y: int| 0 <= y < second.rows.len() && AssemblyView::covered(one, y) implies (
    #[trigger] second.rows[y]) is None by {
        if image.rows[y] is Some {
            assert(image.overlaps(one));
        }
        if AssemblyView::covered(other, y) {
            assert(first.rows[y] is Some);
            assert(first.overlaps(other));
        }
    }
    assert(!second.overlaps(one));
    assert(second.merged(one).rows =~= first.merged(other).rows);
}

/// The image does not depend on the number of workers: into however many
/// chunks the scanlines of a picture are cut, merging the batches of all the
/// chunks into an empty image gives the picture, with no scanline missing.
pub proof fn lemma_chunks_assemble(width: nat, picture: Seq<Seq<Rgb>>, chunks: int)
    requires
        0 < chunks,
    ensures
        AssemblyView::empty(width, picture.len()).merged_all(batches_of(width, picture, chunks))
            == AssemblyView::of_picture(width, picture),
        AssemblyView::of_picture(width, picture).complete(),
{
    let batches = batches_of(width, picture, chunks);
    lemma_prefix_assembles(width, picture, chunks, chunks);
    lemma_chunk_bounds(picture.len() as int, chunks, 0, chunks);
    assert(batches.take(chunks) =~= batches);
    assert(AssemblyView::empty(width, picture.len()).merged_all(batches).rows
        =~= AssemblyView::of_picture(width, picture).rows);
}

/// After the batches of the first `upto` chunks, the image holds the scanlines
/// of those chunks and no others.
proof fn lemma_prefix_assembles(width: nat, picture: Seq<Seq<Rgb>>, chunks: int, upto: int)
    requires
        0 < chunks,
        0 <= upto <= chunks,
    ensures
        ({
            let image = AssemblyView::empty(width, picture.len()).merged_all(
                batches_of(width, picture, chunks).take(upto),
            );
            &&& image.width == width
            &&& image.rows.len() == picture.len()
            &&& forall|y: int|
                0 <= y < picture.len() ==> #[trigger] image.rows[y] == if y < chunk_bound(
                    picture.len() as int,
                    chunks,
                    upto,
                ) {
                    Some(picture[y])
                } else {
                    None
                }
        }),
    decreases upto,
{
    let height = picture.len() as int;
    let batches = batches_of(width, picture, chunks);
    let start = AssemblyView::empty(width, picture.len());
    lemma_chunk_bounds(height, chunks, 0, upto);
    if upto > 0 {
        lemma_prefix_assembles(width, picture, chunks, upto - 1);
        lemma_chunk_bounds(height, chunks, upto - 1, upto);
        assert(batches.take(upto).drop_last() =~= batches.take(upto - 1));
        let before = start.merged_all(batches.take(upto - 1));
        let batch = batches.take(upto).last();
        assert(batch == batches[upto - 1]);
        assert(batch.rows.len() == chunk_bound(height, chunks, upto) - chunk_bound(
            height,
            chunks,
            upto - 1,
        ));
        assert(!before.overlaps(batch));
        assert(before.verdict(batch) is Ok);
    }
}


impl RowBatch {
    /// The batch as the contracts see it.
    pub open spec fn view(&self) -> BatchView {
        BatchView {
            first_row: self.first_row as int,
            width: image_width(self.pixels),
            rows: self.pixels@,
        }
    }

    /// A black batch for the scanlines `rows` of an image `width` pixels wide.
    pub fn new(rows: RowRange, width: u32) -> (batch: RowBatch)
        requires
            rows.start <= rows.end,
            RgbImage::fits(width as int, rows.end - rows.start),
        ensures
            batch.first_row == rows.start,
            image_width(batch.pixels) == width,
            image_height(batch.pixels) == rows.end - rows.start,
            forall|x: int, y: int|
                0 <= x < width && 0 <= y < rows.end - rows.start
                    ==> #[trigger] batch.pixels.pixel(x, y) == (0u8, 0u8, 0u8),
    {
        RowBatch { first_row: rows.start, pixels: RgbImage::new(width, rows.end - rows.start) }
    }
}

/// The image that the batches of the workers are merged into, one scanline
/// being written once.
pub struct Assembly {
    image: RgbImage,
    written: Vec<bool>,
}

impl Assembly {
    /// The invariant of the type: every scanline of the image is accounted for.
    pub closed spec fn wf(&self) -> bool {
        self.written@.len() == image_height(self.image)
    }

    /// The image as the contracts see it.
    pub closed spec fn view(&self) -> AssemblyView {
        AssemblyView {
            width: image_width(self.image),
            rows: Seq::new(
                self.written@.len(),
                |y: int|
                    if self.written@[y] {
                        Some(self.image.row(y))
                    } else {
                        None
                    },
            ),
        }
    }

    /// An image of the given dimensions of which every scanline is missing.
    pub fn new(image_width: u32, image_height: u32) -> (assembly: Assembly)
        requires
            RgbImage::fits(image_width as int, image_height as int),
        ensures
            assembly.wf(),
            assembly@ == AssemblyView::empty(image_width as nat, image_height as nat),
    {
        let image = RgbImage::new(image_width, image_height);
        let mut written: Vec<bool> = Vec::new();
        let mut y: u32 = 0;
        while y < image_height
            invariant
                y <= image_height,
                written@.len() == y,
                forall|k: int| 0 <= k < y ==> !(#[trigger] written@[k]),
            decreases image_height - y,
        {
            written.push(false);
            y += 1;
        }
        let assembly = Assembly { image, written };
        assert(assembly@.rows =~= AssemblyView::empty(image_width as nat, image_height as nat).rows);
        assembly
    }

    /// The number of pixels in a scanline.
    pub fn width(&self) -> (w: u32)
        ensures
            w == self@.width,
    {
        self.image.width()
    }

    /// The number of scanlines, written or missing.
    pub fn height(&self) -> (h: u32)
        requires
            self.wf(),
        ensures
            h == self@.rows.len(),
    {
        self.image.height()
    }

    /// Whether the image already holds one of the `count` scanlines from `first` on.
    fn any_written(&self, first: u32, count: u32) -> (found: bool)
        requires
            self.wf(),
            first + count <= self@.rows.len(),
        ensures
            found == exists|row: int|
                first <= row < first + count && (#[trigger] self@.rows[row]) is Some,
    {
        let height = self.image.height();
        let mut r: u32 = 0;
        while r < count
            invariant
                self.wf(),
                r <= count,
                first + count <= height,
                height == self.written@.len(),
                self.written@.len() == self@.rows.len(),
                forall|row: int| first <= row < first + r ==> (#[trigger] self@.rows[row]) is None,
            decreases count - r,
        {
            if self.written[(first + r) as usize] {
                assert(self@.rows[first + r] is Some);
                return true;
            }
            r += 1;
        }
        false
    }

    /// Copies the scanlines of `batch` to their places in the image, if the
    /// batch is as wide as the image, lies inside it, and brings no scanline
    /// that is already there. A batch that is refused leaves the image as it was.
    pub fn merge(&mut self, batch: &RowBatch) -> (res: Result<(), MergeError>)
        requires
            old(self).wf(),
        ensures
            final(self).wf(),
            res == old(self)@.verdict(batch@),
            res is Ok ==> final(self)@ == old(self)@.merged(batch@),
            res is Err ==> final(self)@ == old(self)@,
    {
        let width = self.image.width();
        let height = self.image.height();
        let count = batch.pixels.height();
        let first = batch.first_row;
        if batch.pixels.width() != width {
            return Err(MergeError::WidthMismatch);
        }
        if first > height || count > height - first {
            return Err(MergeError::OutOfImage);
        }
        if self.any_written(first, count) {
            return Err(MergeError::AlreadyWritten);
        }
        assert(!old(self)@.overlaps(batch@));
        let mut r: u32 = 0;
        while r < count
            invariant
                r <= count,
                first + count <= height,
                height == image_height(self.image),
                width == image_width(self.image),
                width == image_width(batch.pixels),
                count == image_height(batch.pixels),
                self.written@.len() == height,
                old(self).written@.len() == height,
                forall|y: int|
                    0 <= y < height && !(first <= y < first + r) ==> #[trigger] self.written@[y]
                        == old(self).written@[y],
                forall|y: int| first <= y < first + r ==> #[trigger] self.written@[y],
                forall|x: int, y: int|
                    !(first <= y < first + r) ==> #[trigger] self.image.pixel(x, y) == old(
                        self,
                    ).image.pixel(x, y),
                forall|x: int, y: int|
                    0 <= x < width && first <= y < first + r ==> #[trigger] self.image.pixel(x, y)
                        == batch.pixels.pixel(x, y - first),
            decreases count - r,
        {
            let ghost marks = self.written@;
            let mut x: u32 = 0;
            while x < width
                invariant
                    self.written@ == marks,
                    x <= width,
                    r < count,
                    first + count <= height,
                    height == image_height(self.image),
                    width == image_width(self.image),
                    width == image_width(batch.pixels),
                    count == image_height(batch.pixels),
                    forall|i: int, j: int|
                        !(first <= j < first + r) && !(j == first + r && 0 <= i < x)
                            ==> #[trigger] self.image.pixel(i, j) == old(self).image.pixel(i, j),
                    forall|i: int, j: int|
                        0 <= i < width && first <= j < first + r ==> #[trigger] self.image.pixel(
                            i,
                            j,
                        ) == batch.pixels.pixel(i, j - first),
                    forall|i: int|
                        0 <= i < x ==> #[trigger] self.image.pixel(i, first + r)
                            == batch.pixels.pixel(i, r as int),
                decreases width - x,
            {
                let pixel = batch.pixels.get_pixel(x, r);
                self.image.put_pixel(x, first + r, pixel);
                x += 1;
            }
            self.written.set((first + r) as usize, true);
            r += 1;
        }
        proof {
            let goal = old(self)@.merged(batch@);
            assert forall|y: int| 0 <= y < height implies #[trigger] self@.rows[y]
                == goal.rows[y] by {
                if first <= y < first + count {
                    assert(self.image.row(y) =~= batch.pixels.row(y - first));
                } else if old(self).written@[y] {
                    assert(self.image.row(y) =~= old(self).image.row(y));
                }
            }
            assert(self@.rows =~= goal.rows);
        }
        Ok(())
    }

    /// Whether no scanline is missing.
    pub fn is_complete(&self) -> (done: bool)
        requires
            self.wf(),
        ensures
            done == self@.complete(),
    {
        let n = self.written.len();
        let mut y: usize = 0;
        while y < n
            invariant
                y <= n,
                n == self.written@.len(),
                n == self@.rows.len(),
                forall|k: int| 0 <= k < y ==> (#[trigger] self@.rows[k]) is Some,
            decreases n - y,
        {
            if !self.written[y] {
                assert(self@.rows[y as int] is None);
                return false;
            }
            y += 1;
        }
        true
    }

    /// The finished image, if no scanline is missing; nothing otherwise.
    pub fn finish(self) -> (res: Option<RgbImage>)
        requires
            self.wf(),
        ensures
            res is Some <==> self@.complete(),
            res matches Some(img) ==> image_width(img) == self@.width && image_height(img)
                == self@.rows.len() && forall|y: int|
                0 <= y < self@.rows.len() ==> #[trigger] self@.rows[y] == Some(img.row(y)),
    {
        if self.is_complete() {
            proof {
                assert forall|y: int| 0 <= y < self@.rows.len() implies #[trigger] self@.rows[y]
                    == Some(self.image.row(y)) by {
                    assert(self@.rows[y] is Some);
                }
            }
            Some(self.image)
        } else {
            None
        }
    }
}

} // verus!
