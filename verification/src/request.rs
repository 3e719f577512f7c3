//! The checks every render entry point makes, in order, before it renders.
use vstd::prelude::*;

use crate::color::{background_color, parse_background, parse_color_scheme, BackgroundFault, ColorScheme, Rgba8};
use crate::compose::{compose_html, composed, first_fault, opt_str_view, sort_by_name, vars_view, VarFault, VarView};
use crate::error::RenderError;
use crate::limits::{size_fault, validate};

verus! {

/// A render request that passed its checks.
pub struct PreparedRequest {
    pub color_scheme: ColorScheme,
    /// `None` for a transparent canvas.
    pub background: Option<Rgba8>,
    /// The document with the extra CSS and variables appended.
    pub html: String,
}

/// The background as the request reads it.
pub open spec fn background_of(s: Option<&str>) -> Option<Result<Rgba8, BackgroundFault>> {
    match s {
        Some(t) => Some(background_color(t@)),
        None => None,
    }
}

/// The first faulty variable, in name order.
pub open spec fn vars_fault(css_vars: Option<Vec<(String, String)>>) -> Option<(Seq<char>, VarFault)> {
    match css_vars {
        Some(v) => first_fault(sort_by_name(vars_view(v@))),
        None => None,
    }
}

/// The variables in name order.
pub open spec fn sorted_vars(css_vars: Option<Vec<(String, String)>>) -> Option<Seq<VarView>> {
    match css_vars {
        Some(v) => Some(sort_by_name(vars_view(v@))),
        None => None,
    }
}

/// Checks a render request in the order the entry points do: output size
/// (see `validate`), then the color scheme, then the background, then the
/// composition of the document; the first refusal is returned.
pub fn prepare_request(
    width: u32,
    height: Option<u32>,
    scale_is_positive: bool,
    physical_width: u64,
    physical_height: u64,
    color_scheme: &str,
    background: Option<&str>,
    html: &str,
    css: Option<&str>,
    css_vars: Option<Vec<(String, String)>>,
) -> (res: Result<PreparedRequest, RenderError>)
    requires
        css_vars matches Some(v) ==> crate::compose::names_distinct(v@),
    ensures
        match size_fault(width, height, scale_is_positive, physical_width, physical_height) {
            Some(e) => res == Err::<PreparedRequest, RenderError>(e),
            None => if color_scheme@ != "light"@ && color_scheme@ != "dark"@ {
                res matches Err(RenderError::ColorScheme(m)) && m@ == color_scheme@
            } else {
                match background_of(background) {
                    Some(Err(BackgroundFault::Format)) => res matches Err(RenderError::BackgroundFormat(m)) && Some(m@)
                        == opt_str_view(background),
                    Some(Err(BackgroundFault::Digit)) => res == Err::<PreparedRequest, RenderError>(
                        RenderError::InvalidColor,
                    ),
                    _ => match vars_fault(css_vars) {
                        Some((n, VarFault::Name)) => res matches Err(RenderError::CssVariableName(m)) && m@ == n,
                        Some((n, VarFault::Value)) => res matches Err(RenderError::CssVariableValue(m)) && m@ == n,
                        None => res matches Ok(p) && {
                            &&& p.color_scheme == (if color_scheme@ == "light"@ {
                                ColorScheme::Light
                            } else {
                                ColorScheme::Dark
                            })
                            &&& p.background == match background_of(background) {
                                Some(Ok(c)) => Some(c),
                                _ => None,
                            }
                            &&& p.html@ == composed(html@, opt_str_view(css), sorted_vars(css_vars))
                        },
                    },
                }
            },
        },
{
    proof {
        reveal_strlit("light");
        reveal_strlit("dark");
        assert("light"@.len() != "dark"@.len());
    }
    validate(width, height, scale_is_positive, physical_width, physical_height)?;
    let scheme = parse_color_scheme(color_scheme)?;
    let bg = parse_background(background)?;
    let doc = compose_html(html, css, css_vars)?;
    Ok(PreparedRequest { color_scheme: scheme, background: bg, html: doc })
}

} // verus!
