use raytracer::canvas::RgbImage;
use raytracer::partition::{partition_rows, RowRange};
use raytracer::render::{Assembly, MergeError, RowBatch};

/// What the pixel in column `x` of scanline `y` is in these tests.
fn expected(x: u32, y: u32) -> (u8, u8, u8) {
    (x as u8, y as u8, (x + 3 * y) as u8)
}

/// The batch that a worker hands back for `rows`.
fn batch_for(rows: RowRange, width: u32) -> RowBatch {
    let mut batch = RowBatch::new(rows, width);
    for y in rows.start..rows.end {
        for x in 0..width {
            batch.pixels.put_pixel(x, y - rows.start, expected(x, y));
        }
    }
    batch
}

fn assert_is_the_picture(img: &RgbImage, width: u32, height: u32) {
    assert_eq!((img.width(), img.height()), (width, height));
    for y in 0..height {
        for x in 0..width {
            assert_eq!(img.get_pixel(x, y), expected(x, y));
        }
    }
}

#[test]
fn new_assembly_misses_every_row() {
    let assembly = Assembly::new(4, 3);
    assert_eq!((assembly.width(), assembly.height()), (4, 3));
    assert!(!assembly.is_complete());
    assert!(assembly.finish().is_none());
}

#[test]
fn an_image_without_rows_is_complete() {
    let assembly = Assembly::new(4, 0);
    assert!(assembly.is_complete());
    let img = assembly.finish().unwrap();
    assert_eq!((img.width(), img.height()), (4, 0));
}

#[test]
fn batches_of_all_chunks_give_the_image() {
    let mut assembly = Assembly::new(5, 7);
    for rows in partition_rows(7, 3) {
        assert_eq!(assembly.merge(&batch_for(rows, 5)), Ok(()));
    }
    assert!(assembly.is_complete());
    assert_is_the_picture(&assembly.finish().unwrap(), 5, 7);
}

#[test]
fn the_image_does_not_depend_on_the_number_of_workers() {
    for threads in 1..=12usize {
        let mut assembly = Assembly::new(6, 9);
        for rows in partition_rows(9, threads) {
            assert_eq!(assembly.merge(&batch_for(rows, 6)), Ok(()));
        }
        assert_is_the_picture(&assembly.finish().unwrap(), 6, 9);
    }
}

#[test]
fn the_image_does_not_depend_on_the_order_of_arrival() {
    let mut chunks = partition_rows(10, 4);
    chunks.reverse();
    chunks.swap(0, 2);
    let mut assembly = Assembly::new(3, 10);
    for rows in chunks {
        assert_eq!(assembly.merge(&batch_for(rows, 3)), Ok(()));
    }
    assert_is_the_picture(&assembly.finish().unwrap(), 3, 10);
}

#[test]
fn a_missing_batch_leaves_the_image_unfinished() {
    let mut assembly = Assembly::new(3, 10);
    let chunks = partition_rows(10, 4);
    for rows in &chunks[..3] {
        assert_eq!(assembly.merge(&batch_for(*rows, 3)), Ok(()));
    }
    assert!(!assembly.is_complete());
    assert!(assembly.finish().is_none());
}

#[test]
fn a_batch_of_another_width_is_refused() {
    let mut assembly = Assembly::new(4, 4);
    let batch = batch_for(RowRange { start: 0, end: 2 }, 5);
    assert_eq!(assembly.merge(&batch), Err(MergeError::WidthMismatch));
}

#[test]
fn a_batch_beyond_the_last_row_is_refused() {
    let mut assembly = Assembly::new(4, 4);
    let batch = batch_for(RowRange { start: 3, end: 5 }, 4);
    assert_eq!(assembly.merge(&batch), Err(MergeError::OutOfImage));
    let batch = batch_for(RowRange { start: 9, end: 9 }, 4);
    assert_eq!(assembly.merge(&batch), Err(MergeError::OutOfImage));
    let batch = batch_for(RowRange { start: u32::MAX - 1, end: u32::MAX }, 4);
    assert_eq!(assembly.merge(&batch), Err(MergeError::OutOfImage));
}

#[test]
fn a_row_is_written_once() {
    let mut assembly = Assembly::new(4, 4);
    let batch = batch_for(RowRange { start: 1, end: 3 }, 4);
    assert_eq!(assembly.merge(&batch), Ok(()));
    assert_eq!(assembly.merge(&batch), Err(MergeError::AlreadyWritten));
    let overlapping = RowBatch::new(RowRange { start: 2, end: 4 }, 4);
    assert_eq!(assembly.merge(&overlapping), Err(MergeError::AlreadyWritten));
}

#[test]
fn a_refused_batch_changes_nothing() {
    let mut assembly = Assembly::new(2, 3);
    assert_eq!(assembly.merge(&batch_for(RowRange { start: 0, end: 2 }, 2)), Ok(()));
    let black = RowBatch::new(RowRange { start: 1, end: 3 }, 2);
    assert_eq!(assembly.merge(&black), Err(MergeError::AlreadyWritten));
    assert_eq!(assembly.merge(&batch_for(RowRange { start: 2, end: 3 }, 2)), Ok(()));
    assert_is_the_picture(&assembly.finish().unwrap(), 2, 3);
}

#[test]
fn an_empty_batch_is_merged_and_changes_nothing() {
    let mut assembly = Assembly::new(2, 2);
    assert_eq!(assembly.merge(&batch_for(RowRange { start: 1, end: 1 }, 2)), Ok(()));
    assert_eq!(assembly.merge(&batch_for(RowRange { start: 2, end: 2 }, 2)), Ok(()));
    assert!(!assembly.is_complete());
    assert_eq!(assembly.merge(&batch_for(RowRange { start: 0, end: 2 }, 2)), Ok(()));
    assert_is_the_picture(&assembly.finish().unwrap(), 2, 2);
}

#[test]
fn the_first_fault_of_a_batch_is_reported() {
    let mut assembly = Assembly::new(2, 2);
    assert_eq!(assembly.merge(&batch_for(RowRange { start: 0, end: 2 }, 2)), Ok(()));
    let batch = batch_for(RowRange { start: 1, end: 3 }, 7);
    assert_eq!(assembly.merge(&batch), Err(MergeError::WidthMismatch));
    let batch = batch_for(RowRange { start: 1, end: 3 }, 2);
    assert_eq!(assembly.merge(&batch), Err(MergeError::OutOfImage));
}

#[test]
fn new_batch_is_black() {
    let batch = RowBatch::new(RowRange { start: 4, end: 6 }, 3);
    assert_eq!(batch.first_row, 4);
    assert_eq!((batch.pixels.width(), batch.pixels.height()), (3, 2));
    assert_eq!(batch.pixels.get_pixel(2, 1), (0, 0, 0));
}
