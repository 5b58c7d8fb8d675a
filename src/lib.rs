//! Core of a single-track downloader for a streaming service: choosing a
//! playable variant of a track, choosing its file, relaying the decrypted
//! stream in bounded chunks, and reading track locators.
//!
//! Everything that talks to the network or the terminal lives outside this
//! library; it drives the decision functions here and feeds them what it read.

pub mod model;
pub mod resolver;
pub mod select;
pub mod engine;
pub mod framing;
pub mod locator;
