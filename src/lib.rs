//! Parsers for the single-line `key=value` replies of the SAM application
//! bridge: a fixed verb phrase, one or more pairs, and a closing newline.

pub mod grammar;
pub mod parsers;
pub mod laws;
