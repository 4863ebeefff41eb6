//! bxenc: authenticated file encryption, encrypted vault metadata and
//! steganographic wrapping of ciphertext, with their contracts proved by Verus.
pub mod adhoc;
pub mod cli;
pub mod clock;
pub mod crypto;
pub mod error;
pub mod stego;
pub mod text;
pub mod vault;

pub use error::{BxError, BxResult};
