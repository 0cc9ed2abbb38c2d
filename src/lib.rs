//! A generic block cipher engine: key scheduling, raw (ECB-style) block
//! encryption and decryption, and wiping of key material, over a closed
//! registry of algorithms.

pub mod algorithm;
pub mod block;
pub mod ecb;
pub mod error;
pub mod keyspec;
pub mod laws;
pub mod test_cipher;

pub use algorithm::Algorithm;
pub use block::{BlockCipher, CipherState};
pub use error::Error;
pub use keyspec::KeySpec;
