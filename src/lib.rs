//! Deterministic wallet keys from mnemonic phrases: entropy is written as a
//! checksummed word sequence, the words and a passphrase are stretched into a
//! seed, and the seed gives an Ed25519 keypair.
pub mod bits;
pub mod error;
pub mod keygen;
pub mod keypair;
pub mod mnemonic;
pub mod seed;
pub mod wordlist;
