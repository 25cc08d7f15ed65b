//! Applying the hunks of a unified diff to a text token by token, so that a
//! hunk still applies where the text around it was wrapped or indented anew.
//!
//! A text is cut into atoms ([`tokenizer`]): tokens with the whitespace in
//! front of them ([`atom`]). The first side of a hunk is looked for in the
//! atoms of the file by token text alone ([`locator`]). The two sides of the
//! hunk are aligned by [`alignment`], which gives an edit script ([`diff`],
//! [`script`]); the script is replayed where the first side was found
//! ([`replay`], [`patch`]). [`hunk`] takes hunks as lists of lines and patches
//! a whole text, [`render`] turns an edit script into pieces of text to show,
//! and [`laws`] holds what is proved of scripts and their replay.

pub mod alignment;
pub mod atom;
pub mod chars;
pub mod diff;
pub mod hunk;
pub mod laws;
pub mod locator;
pub mod patch;
pub mod render;
pub mod replay;
pub mod script;
pub mod tokenizer;
pub mod utf8;
