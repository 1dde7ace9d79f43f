//! A markdown-to-annotated-text compiler.
//!
//! The library consumes a markdown document together with a pre-sorted queue
//! of mention byte ranges into that document, and produces one flattened
//! display string (as UTF-8 bytes) plus a disjoint, ordered set of style and
//! semantic annotations over that string, and a parallel table of link ranges
//! and link URLs.

pub mod code;
pub mod decimal;
pub mod events;
pub mod fold;
pub mod laws;
pub mod mentions;
pub mod paragraph;
pub mod runs;
pub mod types;
