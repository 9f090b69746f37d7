//! A small library around the TIP5 hash: numeric literals are read in
//! hexadecimal, decimal or octal form, validated against the selected hash
//! mode, and handed to the external sponge primitive; the result is rendered
//! as one printable report.

pub mod parse;
pub mod run;
mod tip5;
