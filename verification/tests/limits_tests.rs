use blitz_py::error::RenderError;
use blitz_py::limits::{check_auto_height, check_frame_times, validate, MAX_DIM, MAX_FRAMES, MAX_PIXELS};

#[test]
fn limits_constants() {
    assert_eq!(MAX_DIM, 16_384);
    assert_eq!(MAX_PIXELS, 64_000_000);
    assert_eq!(MAX_FRAMES, 1000);
}

#[test]
fn validate_accepts_ordinary_sizes() {
    assert_eq!(validate(240, Some(240), true, 240, 240), Ok(()));
    assert_eq!(validate(240, None, true, 480, 2), Ok(()));
}

#[test]
fn validate_zero_size_first() {
    assert_eq!(validate(0, Some(10), false, 0, 0), Err(RenderError::ZeroSize));
    assert_eq!(validate(10, Some(0), true, 10, 0), Err(RenderError::ZeroSize));
}

#[test]
fn validate_scale() {
    assert_eq!(validate(10, None, false, 10, 1), Err(RenderError::Scale));
}

#[test]
fn validate_dimension_range() {
    assert_eq!(validate(10, Some(10), true, 0, 5), Err(RenderError::DimensionRange { width: 0, height: 5 }));
    assert_eq!(validate(10, Some(10), true, 16_385, 5), Err(RenderError::DimensionRange { width: 16_385, height: 5 }));
    assert_eq!(validate(10, Some(10), true, 16_384, 1), Ok(()));
}

#[test]
fn validate_pixel_count() {
    assert_eq!(validate(10, Some(10), true, 16_384, 16_384), Err(RenderError::PixelCount { width: 16_384, height: 16_384 }));
    assert_eq!(validate(10, Some(10), true, 8_000, 8_000), Ok(()));
    assert_eq!(validate(10, Some(10), true, 8_000, 8_001), Err(RenderError::PixelCount { width: 8_000, height: 8_001 }));
}

#[test]
fn auto_height_limits() {
    assert_eq!(check_auto_height(240, 612), Ok(612));
    assert_eq!(check_auto_height(240, 16_385), Err(RenderError::AutoHeight(16_385)));
    assert_eq!(check_auto_height(10_000, 6_401), Err(RenderError::AutoHeight(6_401)));
    assert_eq!(check_auto_height(10_000, 6_400), Ok(6_400));
    assert_eq!(check_auto_height(u32::MAX, 1), Err(RenderError::AutoHeight(1)));
}

#[test]
fn frame_times_checks() {
    assert_eq!(check_frame_times(0, true), Err(RenderError::NoTimes));
    assert_eq!(check_frame_times(1001, false), Err(RenderError::TooManyFrames(1001)));
    assert_eq!(check_frame_times(40, false), Err(RenderError::BadTime));
    assert_eq!(check_frame_times(1000, true), Ok(()));
}

#[test]
fn content_height_is_not_range_checked_before_layout() {
    // width 100 at scale 0.5: the provisional height truncates to 0
    assert_eq!(validate(100, None, true, 50, 0), Ok(()));
    assert_eq!(validate(1, None, true, 16_384, 16_384), Ok(()));
    assert_eq!(validate(100, None, true, 0, 0), Err(RenderError::DimensionRange { width: 0, height: 0 }));
}
