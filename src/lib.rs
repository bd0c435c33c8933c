//! A small SRT subtitle parser and renderer.
//!
//! [`from_str`] turns SRT text into a `Vec<Subtitle>`, or the first error
//! with the number of its line; [`to_string`] renders subtitles back,
//! numbering them from one. Both are verified against the models in
//! [`parse`] and [`render`], and [`roundtrip`] proves that the two agree.
pub mod digits;
pub mod error;
pub mod lines;
pub mod parse;
pub mod render;
pub mod roundtrip;
pub mod subtitle;
pub mod time;

pub use error::{Error, ErrorKind, Result};
pub use parse::from_str;
pub use render::to_string;
pub use subtitle::Subtitle;
pub use time::{Duration, Timestamp};
