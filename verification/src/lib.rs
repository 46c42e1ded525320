//! Rewrites the UTC timestamps in lines of text into a target timezone and
//! leaves every other byte of a line as it is.
//!
//! [`date_parse`] finds the timestamps and rewrites the line, [`calendar`]
//! validates an instant and shifts it by an offset, [`render`] writes it in
//! the fixed layout, [`text`] copies ranges of UTF-8 text, [`laws`] states
//! what holds of every rewritten line, and [`outside`] lists what is taken
//! on trust from other crates.
pub mod calendar;
pub mod date_parse;
pub mod laws;
pub mod outside;
pub mod render;
pub mod text;
