//! The 64-byte seed stretched from a mnemonic and a passphrase.
use crate::mnemonic::{is_entropy_len, Mnemonic};
use vstd::prelude::*;

verus! {

/// The seed that bip39 stretches from the English phrase of `entropy` and `passphrase`.
pub uninterp spec fn bip39_seed(entropy: Seq<u8>, passphrase: Seq<char>) -> Seq<u8>;

/// Relies on bip39's `Mnemonic::from_entropy`, which accepts exactly 16, 20, 24, 28 or 32
/// bytes, and `Seed::new`: PBKDF2-HMAC-SHA512 with 2048 rounds over the phrase, salted with
/// "mnemonic" followed by the passphrase, 64 bytes long.
#[verifier::external_body]
fn seed_from_entropy(entropy: &[u8], passphrase: &str) -> (r: Vec<u8>)
    requires
        is_entropy_len(entropy@.len() as int),
    ensures
        r@ == bip39_seed(entropy@, passphrase@),
        r@.len() == 64,
{
    match bip39::Mnemonic::from_entropy(entropy, bip39::Language::English) {
        Ok(m) => bip39::Seed::new(&m, passphrase).as_bytes().to_vec(),
        Err(_) => Vec::new(),
    }
}

/// The seed of a mnemonic under a passphrase.
pub struct Seed {
    bytes: Vec<u8>,
}

impl Seed {
    pub closed spec fn bytes_view(&self) -> Seq<u8> {
        self.bytes@
    }

    pub fn as_bytes(&self) -> (r: &[u8])
        ensures
            r@ == self.bytes_view(),
    {
        self.bytes.as_slice()
    }
}

/// Stretches the mnemonic and the passphrase (empty for none) into a 64-byte seed.
pub fn derive_seed(mnemonic: &Mnemonic, passphrase: &str) -> (r: Seed)
    requires
        mnemonic.wf(),
    ensures
        r.bytes_view() == bip39_seed(mnemonic.entropy_view(), passphrase@),
        r.bytes_view().len() == 64,
{
    proof {
        mnemonic.lemma_wf_words();
    }
    let bytes = seed_from_entropy(mnemonic.entropy().as_slice(), passphrase);
    Seed { bytes }
}

} // verus!
