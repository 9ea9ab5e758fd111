//! Reading, checking and writing Minecraft region files in the Linear
//! format, with the byte layout stated as specifications and proved.

pub mod bytes;
pub mod compression;
pub mod error;
pub mod parse;
pub mod converter;
pub mod laws;
