//! Recurring Korean lunisolar anniversaries, resolved to solar-calendar
//! dates and serialized as an iCalendar document.
//!
//! The library has two components. The resolver takes a lunar base date
//! (year, month, leap-month flag, day) and a repeat count, and walks
//! candidate lunar years, collecting the solar date of each year in which
//! the requested month/leap combination exists. The encoder takes a title
//! and an ordered sequence of solar dates and produces a calendar document
//! with one all-day entry per date.

/// Value types for lunar and solar dates and timestamps.
pub mod dates;
/// The boundary to the lunisolar conversion table.
pub mod convert;
/// The recurrence resolver.
pub mod resolver;
/// Parsing of the raw date string.
pub mod parse;
/// Decimal numerals and padding.
pub mod numeral;
/// Text building and escaping.
pub mod text;
/// The calendar file encoder.
pub mod encode;
/// Document-level laws of the encoder.
pub mod laws;
