use raytracer::image::{AspectRatio, ConfigError, Image};

fn image(across: u32, down: u32, width: u32) -> Image {
    Image::new(AspectRatio::new(across, down).unwrap(), width)
}

#[test]
fn height_follows_from_the_aspect_ratio() {
    let img = image(3, 2, 500);
    assert_eq!(img.width(), 500);
    assert_eq!(img.height(), 333);
}

#[test]
fn height_is_rounded_down() {
    assert_eq!(image(16, 9, 400).height(), 225);
    assert_eq!(image(16, 9, 401).height(), 225);
    assert_eq!(image(3, 2, 1200).height(), 800);
    assert_eq!(image(3, 2, 1).height(), 0);
    assert_eq!(image(1, 1, 77).height(), 77);
}

#[test]
fn height_stops_at_the_largest() {
    assert_eq!(image(1, 2, u32::MAX).height(), u32::MAX);
    assert_eq!(image(1, u32::MAX, u32::MAX).height(), u32::MAX);
    assert_eq!(image(2, 1, u32::MAX).height(), u32::MAX / 2);
}

#[test]
fn aspect_ratio_needs_two_positive_sides() {
    assert!(AspectRatio::new(3, 2).is_ok());
    assert_eq!(AspectRatio::new(0, 2).err(), Some(ConfigError::Aspect));
    assert_eq!(AspectRatio::new(3, 0).err(), Some(ConfigError::Aspect));
    assert_eq!(AspectRatio::new(0, 0).err(), Some(ConfigError::Aspect));
}

#[test]
fn positive_settings_pass() {
    assert_eq!(image(3, 2, 500).check(100, 50, 8), Ok(()));
    assert_eq!(image(1, 1, 1).check(1, 1, 1), Ok(()));
}

#[test]
fn an_image_without_columns_is_rejected() {
    assert_eq!(image(3, 2, 0).check(100, 50, 8), Err(ConfigError::Width));
}

#[test]
fn an_image_without_rows_is_rejected() {
    assert_eq!(image(3, 2, 1).check(100, 50, 8), Err(ConfigError::Height));
}

#[test]
fn samples_must_be_positive() {
    assert_eq!(image(3, 2, 500).check(0, 50, 8), Err(ConfigError::Samples));
    assert_eq!(image(3, 2, 500).check(-1, 50, 8), Err(ConfigError::Samples));
}

#[test]
fn depth_must_be_positive() {
    assert_eq!(image(3, 2, 500).check(100, 0, 8), Err(ConfigError::Depth));
    assert_eq!(image(3, 2, 500).check(100, i32::MIN, 8), Err(ConfigError::Depth));
}

#[test]
fn there_must_be_a_worker() {
    assert_eq!(image(3, 2, 500).check(100, 50, 0), Err(ConfigError::Threads));
}

#[test]
fn the_first_fault_is_reported() {
    assert_eq!(image(3, 2, 0).check(0, 0, 0), Err(ConfigError::Width));
    assert_eq!(image(3, 2, 500).check(0, 0, 0), Err(ConfigError::Samples));
    assert_eq!(image(3, 2, 500).check(1, 0, 0), Err(ConfigError::Depth));
}
