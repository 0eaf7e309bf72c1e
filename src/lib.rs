//! Short Iron: a registry that pairs long URLs with short, generated codes.
//!
//! The registry keeps each URL paired with at most one code and each code
//! paired with at most one URL; the request handlers build on it.
pub mod code_gen;
pub mod handlers;
pub mod registry;
pub mod validation;

pub use code_gen::{short_url, CODE_LEN};
pub use handlers::{debugger, redirect, shorten, ShortenError, UrlRequest};
pub use registry::KnownUrls;
pub use validation::{validate, InvalidUrlError};
