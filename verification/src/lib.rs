//! Decoding of hexadecimal payloads that a PLC embeds in its console output.
//!
//! A payload travels inside a frame, `@04<hex digits>01@` or
//! `@04<hex digits>02@`. The crate finds the frames of a text, turns each
//! payload into bytes and reads the bytes as text under the first character
//! encoding, of a fixed list, that accepts them.
//!
//! - `frames` finds the frames of a text and proves what is found.
//! - `hexcode` turns hexadecimal digits into bytes, with the `hex` crate.
//! - `charset` reads bytes as text, with `encoding_rs`.
//! - `pipeline` joins the three: from a text to what is shown for it.
//! - `state` is the window's state and what a click or the clock does to it.

pub mod hexcode;
pub mod frames;
pub mod charset;
pub mod pipeline;
pub mod state;
