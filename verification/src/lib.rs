//! Trust-boundary input sanitization: turns untrusted text and byte streams
//! into cleaned display strings or bounded non-negative integers.
//!
//! The library offers four operations: [`sanitize_text`] cleans a single
//! in-memory string against a length and character-class policy;
//! [`sanitize_display_label`] additionally rejects results that are visually
//! empty; [`read_sanitized_line`] pulls one bounded line from a byte source
//! and re-synchronizes the stream after an overlong line; and
//! [`parse_positive_u32`] converts cleaned digits into a range-checked `u32`.
//! Every failure is reported as an [`InputError`] value.

pub mod chars;
pub mod errors;
pub mod numeric;
pub mod sanitize;
pub mod scan;
pub mod source;

pub use errors::InputError;
pub use numeric::parse_positive_u32;
pub use sanitize::sanitize_display_label;
pub use sanitize::sanitize_text;
pub use source::read_sanitized_line;
pub use source::LineSource;
