//! Task lists and their iCalendar (VTODO) text form.
//!
//! A [`task::TaskList`] is a named, coloured, ordered list of
//! [`task::Task`]s. [`parser`] reads one from the text of a calendar file and
//! writes one as such text; [`decode`] and [`encode`] say, property by
//! property, what is read and written, and [`roundtrip`] proves that what is
//! written reads back. [`sort`] orders a list by one of its fields.
//!
//! The text is split into property lines by the ical crate ([`lexer`]);
//! timestamps are read and written by chrono ([`date`]), colours are read by
//! colorsys ([`color`]) and identifiers by uuid ([`ident`]).

pub mod color;
pub mod date;
pub mod decode;
pub mod encode;
pub mod ident;
pub mod lexer;
pub mod parser;
pub mod roundtrip;
pub mod sort;
pub mod task;
pub mod text;
