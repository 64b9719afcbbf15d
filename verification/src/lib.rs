//! Trims the notification queues out of a Terra Invicta save.
//!
//! A save is one large JSON document, plain or as a gzip stream, in which the
//! game also writes `Infinity`, `-Infinity` and `NaN` as numbers. Two queues
//! deep inside it grow without bound. A trim empties both and leaves the rest
//! of the document as it was:
//!
//! - [`codec`] reads bytes as a document and writes a document as bytes;
//! - [`literals`] makes the three literals pass the strict grammar, by the
//!   text replacement of [`replace`];
//! - [`json`] is the document, [`path`] walks it and empties a sequence,
//!   [`trim`] knows the two queues and counts what a trim removed;
//! - [`pipeline`] runs the whole trim on the bytes of a file, [`naming`] names
//!   the file to write, and [`error`] tells what went wrong;
//! - [`bridge`] holds the calls into `serde_json` and `libflate`.
//!
//! The library touches no file: it takes the bytes of the save and returns
//! the bytes to write.

pub mod bridge;
pub mod codec;
pub mod error;
pub mod json;
pub mod literals;
pub mod naming;
pub mod path;
pub mod pipeline;
pub mod replace;
pub mod trim;
