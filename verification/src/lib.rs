//! Resolution of the latest published version of tracked software packages.
//!
//! A package names an upstream release page.  The page is fetched by the
//! caller, a structural query locates the element that carries the version,
//! the element's text is normalized into a canonical version token, and the
//! token is compared with a recorded baseline.

pub mod baseline;
pub mod diff;
pub mod error;
pub mod extract;
pub mod model;
pub mod normalize;
pub mod pipeline;
pub mod records;
pub mod selector;
pub mod text;
