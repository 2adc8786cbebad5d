//! The ways key generation can fail.
use vstd::prelude::*;

verus! {

#[derive(Debug, Clone, Copy, PartialEq, Eq, Structural)]
pub enum KeyGenError {
    /// The requested number of words is not 12, 15, 18, 21 or 24.
    InvalidWordCount,
    /// The entropy handed in does not have the length that the word count asks for.
    InvalidEntropyLength,
    /// A word of the phrase is not in the word list.
    UnknownWord,
    /// The checksum bits of the phrase do not match its entropy.
    ChecksumMismatch,
    /// A seed shorter than the 32 bytes of a secret key.
    InvalidSeedLength,
}

} // verus!
