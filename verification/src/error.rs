//! The errors that the library reports, one variant per refusal.
use vstd::prelude::*;

verus! {

/// Why a render request, a font setting or a template edit was refused.
#[derive(Debug, PartialEq)]
pub enum RenderError {
    /// `color_scheme` was neither `light` nor `dark`; holds the value given.
    ColorScheme(String),
    /// `background` was not `#rgb`, `#rrggbb` or `#rrggbbaa`; holds the value given.
    BackgroundFormat(String),
    /// A hex field of the background color was not a valid number.
    InvalidColor,
    /// A width or height of zero.
    ZeroSize,
    /// The scale was not a positive finite number.
    Scale,
    /// A physical output dimension outside `1..=MAX_DIM`.
    DimensionRange { width: u64, height: u64 },
    /// More physical pixels than `MAX_PIXELS`.
    PixelCount { width: u64, height: u64 },
    /// The content-sized height exceeds the output limits.
    AutoHeight(u64),
    /// A css variable name holding a character outside `[A-Za-z0-9_-]`, or empty.
    CssVariableName(String),
    /// A css variable value holding `{` or `}`; holds the variable's name.
    CssVariableValue(String),
    /// No animation timestamps were given.
    NoTimes,
    /// More animation timestamps than `MAX_FRAMES`; holds their number.
    TooManyFrames(usize),
    /// An animation timestamp that is negative or not finite.
    BadTime,
    /// The default font family is not known to the font collection.
    FontFamily(String),
    /// No template element carries the given `id`.
    NoElement(String),
    /// The template element does not hold exactly one text node.
    NotSingleText(String),
    /// An inline style property name outside `[A-Za-z0-9-]`, or empty.
    CssProperty(String),
    /// An attempt to change an element's `id` attribute.
    IdAttribute,
    /// The PNG encoder refused the image.
    PngEncoding,
}

} // verus!
