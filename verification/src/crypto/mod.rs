pub mod engine;
pub mod kdf;
pub mod padding;
