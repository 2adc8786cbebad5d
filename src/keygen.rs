//! Key generation end to end: entropy, mnemonic, seed, keypair.
use crate::error::KeyGenError;
use crate::keypair::{derive_keypair, keypair_of_seed, Keypair};
use crate::mnemonic::{
    entropy_len_for, generate_mnemonic, is_word_count, lemma_round_trip, mnemonic_words, Mnemonic,
};
use crate::seed::{bip39_seed, derive_seed};
use vstd::prelude::*;

verus! {

/// The passphrase that an optional one stands for: none is the empty passphrase.
pub open spec fn passphrase_view(passphrase: Option<String>) -> Seq<char> {
    match passphrase {
        Some(p) => p@,
        None => Seq::empty(),
    }
}

/// The keypair that entropy gives under a passphrase.
pub open spec fn keypair_of_entropy(entropy: Seq<u8>, passphrase: Seq<char>) -> (Seq<u8>, Seq<u8>) {
    let seed = bip39_seed(entropy, passphrase);
    (seed.subrange(0, 32), crate::keypair::ed25519_public_key(seed.subrange(0, 32)))
}

/// Relies on bip39's `MnemonicType::for_word_count`, which accepts 12, 15, 18, 21 and 24,
/// and `Mnemonic::new`, which draws `entropy_bits / 8` bytes from the thread's random
/// generator; `Mnemonic::entropy` hands those bytes back.
#[verifier::external_body]
fn random_entropy(word_count: usize) -> (r: Option<Vec<u8>>)
    ensures
        r is Some <==> is_word_count(word_count as int),
        r matches Some(e) ==> e@.len() == entropy_len_for(word_count as int),
{
    match bip39::MnemonicType::for_word_count(word_count) {
        Ok(t) => Some(bip39::Mnemonic::new(t, bip39::Language::English).entropy().to_vec()),
        Err(_) => None,
    }
}

fn passphrase_str(passphrase: &Option<String>) -> (r: &str)
    ensures
        r@ == passphrase_view(*passphrase),
{
    match passphrase {
        Some(p) => p.as_str(),
        None => {
            proof {
                reveal_strlit("");
            }
            ""
        },
    }
}

/// The mnemonic of `word_count` words for `entropy`, and the keypair that it gives under
/// `passphrase`.
pub fn generate_keypair_from_entropy(
    word_count: usize,
    entropy: &[u8],
    passphrase: &Option<String>,
) -> (r: Result<(Mnemonic, Keypair), KeyGenError>)
    ensures
        !is_word_count(word_count as int) ==> r == Err::<(Mnemonic, Keypair), KeyGenError>(
            KeyGenError::InvalidWordCount,
        ),
        is_word_count(word_count as int) && entropy@.len() != entropy_len_for(word_count as int)
            ==> r == Err::<(Mnemonic, Keypair), KeyGenError>(KeyGenError::InvalidEntropyLength),
        is_word_count(word_count as int) && entropy@.len() == entropy_len_for(word_count as int)
            ==> (r matches Ok((m, kp)) && m.wf() && m.entropy_view() == entropy@
            && m.words_view() == mnemonic_words(entropy@) && (kp.secret_view(), kp.public_view())
            == keypair_of_entropy(entropy@, passphrase_view(*passphrase))),
{
    let m = match generate_mnemonic(word_count, entropy) {
        Ok(m) => m,
        Err(e) => {
            return Err(e);
        },
    };
    let seed = derive_seed(&m, passphrase_str(passphrase));
    match derive_keypair(seed.as_bytes()) {
        Ok(kp) => Ok((m, kp)),
        Err(e) => Err(e),
    }
}

/// A fresh mnemonic of `word_count` words from random entropy, and the keypair that it
/// gives under `passphrase`.
pub fn generate_keypair(word_count: usize, passphrase: &Option<String>) -> (r: Result<
    (Mnemonic, Keypair),
    KeyGenError,
>)
    ensures
        !is_word_count(word_count as int) ==> r == Err::<(Mnemonic, Keypair), KeyGenError>(
            KeyGenError::InvalidWordCount,
        ),
        is_word_count(word_count as int) ==> (r matches Ok((m, kp)) && m.wf()
            && m.words_view().len() == word_count && m.entropy_view().len() == entropy_len_for(
            word_count as int,
        ) && (kp.secret_view(), kp.public_view()) == keypair_of_entropy(
            m.entropy_view(),
            passphrase_view(*passphrase),
        )),
{
    match random_entropy(word_count) {
        Some(entropy) => generate_keypair_from_entropy(word_count, entropy.as_slice(), passphrase),
        None => Err(KeyGenError::InvalidWordCount),
    }
}

/// Derivation is a function of the words and the passphrase alone: two mnemonics with the
/// same words give the same seed under the same passphrase, and the same seed gives the same
/// keypair.
pub proof fn lemma_derivation_deterministic(m1: Mnemonic, m2: Mnemonic, passphrase: Seq<char>)
    requires
        m1.wf(),
        m2.wf(),
        m1.words_view() == m2.words_view(),
    ensures
        bip39_seed(m1.entropy_view(), passphrase) == bip39_seed(m2.entropy_view(), passphrase),
        keypair_of_seed(bip39_seed(m1.entropy_view(), passphrase)) == keypair_of_seed(
            bip39_seed(m2.entropy_view(), passphrase),
        ),
{
    lemma_round_trip(m1);
    lemma_round_trip(m2);
}

} // verus!
