//! Parser for hike commands sent as short text messages.
//!
//! A message such as `create 33 E618 7428602 tent "Start"` becomes a
//! [`Command`] built from one or more points, or a [`ParseError`] that
//! localises what went wrong.
pub mod calendar;
pub mod command;
pub mod error;
pub mod fields;
pub mod laws;
pub mod lexer;
pub mod offsets;
pub mod parser;
pub mod reorder;
pub mod step;

pub use command::{Action, Command, Date, Point, Position, Projection, Storage, Time};
pub use error::{Error, ErrorKind, ParseError, Span};
