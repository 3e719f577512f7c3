//! Verified core of a headless HTML/CSS renderer binding: option parsing,
//! output limits, document composition, inline-style editing, template
//! element lookup, resource-fetch policy and font defaults.
pub mod color;
pub mod compose;
pub mod dom;
pub mod error;
pub mod fetch;
pub mod fonts;
pub mod limits;
pub mod png_out;
pub mod request;
pub mod style;
pub mod template;
pub mod text;
