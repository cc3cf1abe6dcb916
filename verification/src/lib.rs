//! Core of a vocabulary drill: a record parser that turns lines of text into
//! term/definition entries, a progressive hint engine, a quiz state machine
//! with per-term scoring, and the line format under which scores persist.

pub mod chars;
pub mod hint;
pub mod numfmt;
pub mod persist;
pub mod quiz;
pub mod record;
pub mod score;
pub mod session;
pub mod table;
