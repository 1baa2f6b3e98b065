//! Decoding of schema-described binary cell-trace captures.
//!
//! A capture is a flat stream of length-prefixed records. Records that carry
//! an event are decoded field by field under an event catalog into named,
//! textual parameters, and the decoded events can be folded into bounded
//! frequency summaries.

pub mod config;
pub mod converter;
pub mod ctr_analyzer;
pub mod ctr_parser;
pub mod error;
pub mod formatter;
pub mod framing;
pub mod parser;
pub mod printer;
pub mod ranking;
pub mod text;
pub mod trace_reader;
pub mod xml_parser;
