//! Output limits: the checks a request passes before anything is rendered.
use vstd::prelude::*;

use crate::error::RenderError;

verus! {

/// Largest permitted physical output dimension, in pixels.
pub const MAX_DIM: u64 = 16_384;

/// Largest permitted number of physical pixels (256MB of RGBA).
pub const MAX_PIXELS: u64 = 64_000_000;

/// Largest number of animation frames rendered by one call.
pub const MAX_FRAMES: usize = 1000;

/// Height of the provisional viewport laid out when the height is sized to the content.
pub const PROVISIONAL_HEIGHT: u32 = 800;

/// Physical dimensions the output limits admit.
pub open spec fn physical_ok(pw: u64, ph: u64) -> bool {
    1 <= pw <= MAX_DIM && 1 <= ph <= MAX_DIM && pw * ph <= MAX_PIXELS
}

/// Physical dimensions admitted before rendering. With the height sized to
/// the content (`height` is `None`) only the width is checked here: the
/// real height is known only after layout (see `check_auto_height`).
pub open spec fn request_size_ok(height: Option<u32>, pw: u64, ph: u64) -> bool {
    match height {
        Some(_) => physical_ok(pw, ph),
        None => 1 <= pw <= MAX_DIM,
    }
}

/// Why a render size is refused, checked in this order: zero size, scale,
/// range of each physical dimension, physical pixel count. With the height
/// sized to the content, only the physical width is range-checked.
pub open spec fn size_fault(
    width: u32,
    height: Option<u32>,
    scale_is_positive: bool,
    physical_width: u64,
    physical_height: u64,
) -> Option<RenderError> {
    if width == 0 || height == Some(0u32) {
        Some(RenderError::ZeroSize)
    } else if !scale_is_positive {
        Some(RenderError::Scale)
    } else if !(1 <= physical_width <= MAX_DIM && (height is None || 1 <= physical_height <= MAX_DIM)) {
        Some(RenderError::DimensionRange { width: physical_width, height: physical_height })
    } else if height is Some && physical_width * physical_height > MAX_PIXELS {
        Some(RenderError::PixelCount { width: physical_width, height: physical_height })
    } else {
        None
    }
}

/// Checks a render request's size. `scale_is_positive` says whether the
/// scale is a finite number above zero; `physical_width` and
/// `physical_height` are the logical width and height times the scale,
/// truncated to integers. When the height is sized to the content,
/// `physical_height` is not looked at.
pub fn validate(
    width: u32,
    height: Option<u32>,
    scale_is_positive: bool,
    physical_width: u64,
    physical_height: u64,
) -> (res: Result<(), RenderError>)
    ensures
        res == match size_fault(width, height, scale_is_positive, physical_width, physical_height) {
            Some(e) => Err::<(), RenderError>(e),
            None => Ok(()),
        },
        res is Ok <==> (width != 0 && height != Some(0u32) && scale_is_positive && request_size_ok(
            height,
            physical_width,
            physical_height,
        )),
{
    if width == 0 || height == Some(0u32) {
        return Err(RenderError::ZeroSize);
    }
    if !scale_is_positive {
        return Err(RenderError::Scale);
    }
    if physical_width == 0 || physical_width > MAX_DIM {
        return Err(RenderError::DimensionRange { width: physical_width, height: physical_height });
    }
    if height.is_none() {
        return Ok(());
    }
    if physical_height == 0 || physical_height > MAX_DIM {
        return Err(RenderError::DimensionRange { width: physical_width, height: physical_height });
    }
    assert(physical_width * physical_height <= MAX_DIM * MAX_DIM) by (nonlinear_arith)
        requires
            physical_width <= MAX_DIM,
            physical_height <= MAX_DIM,
    ;
    if physical_width * physical_height > MAX_PIXELS {
        return Err(RenderError::PixelCount { width: physical_width, height: physical_height });
    }
    Ok(())
}

/// Checks the height measured from the laid-out content (already scaled,
/// rounded up and at least 1) against the output limits, and gives it as a
/// canvas height.
pub fn check_auto_height(physical_width: u32, physical_height: u64) -> (res: Result<u32, RenderError>)
    ensures
        (physical_height > MAX_DIM || physical_width * physical_height > MAX_PIXELS) ==> res
            == Err::<u32, RenderError>(RenderError::AutoHeight(physical_height)),
        !(physical_height > MAX_DIM || physical_width * physical_height > MAX_PIXELS) ==> res
            == Ok::<u32, RenderError>(physical_height as u32),
{
    if physical_height > MAX_DIM {
        return Err(RenderError::AutoHeight(physical_height));
    }
    let pw = physical_width as u64;
    assert(pw * physical_height <= 0xffff_ffff * MAX_DIM) by (nonlinear_arith)
        requires
            pw <= 0xffff_ffff,
            physical_height <= MAX_DIM,
    ;
    if pw * physical_height > MAX_PIXELS {
        return Err(RenderError::AutoHeight(physical_height));
    }
    Ok(physical_height as u32)
}

/// With a given height, both physical sides in range, and nothing else
/// wrong, the size is refused exactly when the pixel count, the product of
/// the two physical sides, passes 64,000,000, and then as that pixel count.
pub proof fn law_pixel_count_is_the_product(width: u32, height: u32, physical_width: u64, physical_height: u64)
    requires
        width != 0,
        height != 0,
        1 <= physical_width <= 16_384,
        1 <= physical_height <= 16_384,
    ensures
        size_fault(width, Some(height), true, physical_width, physical_height) is None <==> physical_width
            * physical_height <= 64_000_000,
        physical_width * physical_height > 64_000_000 ==> size_fault(
            width,
            Some(height),
            true,
            physical_width,
            physical_height,
        ) == Some(RenderError::PixelCount { width: physical_width, height: physical_height }),
{
}

/// With the height sized to the content, only the physical width is
/// checked before layout: any provisional physical height passes.
pub proof fn law_content_height_not_checked_before_layout(width: u32, physical_width: u64, h1: u64, h2: u64)
    ensures
        size_fault(width, None, true, physical_width, h1) is None <==> size_fault(
            width,
            None,
            true,
            physical_width,
            h2,
        ) is None,
        width != 0 && 1 <= physical_width <= 16_384 ==> size_fault(width, None, true, physical_width, h1) is None,
{
}

/// Checks the animation timestamps of a frames request: there must be at
/// least one and at most `MAX_FRAMES`, and `all_valid` says whether every
/// one is finite and non-negative. The checks run in that order.
pub fn check_frame_times(count: usize, all_valid: bool) -> (res: Result<(), RenderError>)
    ensures
        count == 0 ==> res == Err::<(), RenderError>(RenderError::NoTimes),
        0 < count <= MAX_FRAMES || count == 0 || res == Err::<(), RenderError>(RenderError::TooManyFrames(count)),
        0 < count <= MAX_FRAMES && !all_valid ==> res == Err::<(), RenderError>(RenderError::BadTime),
        res is Ok <==> (0 < count <= MAX_FRAMES && all_valid),
{
    if count == 0 {
        return Err(RenderError::NoTimes);
    }
    if count > MAX_FRAMES {
        return Err(RenderError::TooManyFrames(count));
    }
    if !all_valid {
        return Err(RenderError::BadTime);
    }
    Ok(())
}

} // verus!
