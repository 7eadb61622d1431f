use raytracer::canvas::RgbImage;

#[test]
fn new_image_is_black() {
    let img = RgbImage::new(4, 3);
    assert_eq!(img.width(), 4);
    assert_eq!(img.height(), 3);
    for y in 0..3 {
        for x in 0..4 {
            assert_eq!(img.get_pixel(x, y), (0, 0, 0));
        }
    }
}

#[test]
fn empty_images_have_their_dimensions() {
    let img = RgbImage::new(0, 5);
    assert_eq!((img.width(), img.height()), (0, 5));
    let img = RgbImage::new(5, 0);
    assert_eq!((img.width(), img.height()), (5, 0));
}

#[test]
fn put_pixel_changes_one_pixel() {
    let mut img = RgbImage::new(3, 3);
    img.put_pixel(1, 2, (10, 20, 30));
    for y in 0..3 {
        for x in 0..3 {
            let expected = if (x, y) == (1, 2) { (10, 20, 30) } else { (0, 0, 0) };
            assert_eq!(img.get_pixel(x, y), expected);
        }
    }
}

#[test]
fn columns_and_rows_are_not_confused() {
    let mut img = RgbImage::new(2, 3);
    img.put_pixel(1, 0, (1, 1, 1));
    img.put_pixel(0, 2, (2, 2, 2));
    assert_eq!(img.get_pixel(1, 0), (1, 1, 1));
    assert_eq!(img.get_pixel(0, 2), (2, 2, 2));
    assert_eq!(img.get_pixel(0, 1), (0, 0, 0));
    assert_eq!(img.get_pixel(1, 2), (0, 0, 0));
}

#[test]
fn flipv_reverses_the_rows() {
    let mut img = RgbImage::new(2, 3);
    for y in 0..3u32 {
        for x in 0..2u32 {
            img.put_pixel(x, y, (x as u8, y as u8, 9));
        }
    }
    let flipped = img.flipv();
    assert_eq!((flipped.width(), flipped.height()), (2, 3));
    for y in 0..3u32 {
        for x in 0..2u32 {
            assert_eq!(flipped.get_pixel(x, y), (x as u8, (2 - y) as u8, 9));
            assert_eq!(img.get_pixel(x, y), (x as u8, y as u8, 9));
        }
    }
}

#[test]
fn flipv_twice_is_the_image() {
    let mut img = RgbImage::new(3, 4);
    img.put_pixel(0, 0, (1, 2, 3));
    img.put_pixel(2, 3, (4, 5, 6));
    img.put_pixel(1, 1, (7, 8, 9));
    let back = img.flipv().flipv();
    for y in 0..4 {
        for x in 0..3 {
            assert_eq!(back.get_pixel(x, y), img.get_pixel(x, y));
        }
    }
}

#[test]
fn can_hold_tells_what_fits() {
    assert!(RgbImage::can_hold(1200, 800));
    assert!(RgbImage::can_hold(0, u32::MAX));
    assert!(!RgbImage::can_hold(u32::MAX, u32::MAX));
}
