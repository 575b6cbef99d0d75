//! An encrypted, authenticated byte channel: a Noise XX handshake, then
//! length-prefixed frames of authenticated ciphertext in each direction.
//! Also the finalized-chain information that a node builds from its genesis storage.
pub mod chain_information;
pub mod cipher;
pub mod error;
pub mod frame;
pub mod handshake;
pub mod noise;
