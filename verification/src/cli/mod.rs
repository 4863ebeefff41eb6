//! The command-line front end's own decisions: which commands write to standard
//! output, what the stego and vault commands do with the inputs they were given,
//! and the startup banner's line.
pub mod args;
pub mod banner;
pub mod commands;
