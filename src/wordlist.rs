//! The English word list of the mnemonic standard, as bip39 holds it.
use vstd::prelude::*;

verus! {

/// Number of words in the list; each word stands for an 11-bit index.
pub const WORD_LIST_LEN: u16 = 2048;

/// The word at `index` of bip39's English word list.
pub uninterp spec fn english_word(index: int) -> Seq<char>;

/// The index that bip39's English word map gives `word`, if the word is in the list.
pub uninterp spec fn english_index(word: Seq<char>) -> Option<u16>;

/// Relies on `Language::wordlist` and `WordList::get_word` of bip39: entry `index` of the
/// English list, which has 2048 distinct entries, so that the word map built from it gives
/// the entry its own index back.
#[verifier::external_body]
pub(crate) fn word_at(index: u16) -> (r: String)
    requires
        index < WORD_LIST_LEN,
    ensures
        r@ == english_word(index as int),
        english_index(r@) == Some(index),
{
    bip39::Language::English.wordlist().get_word(index.into()).to_string()
}

/// Relies on `Language::wordmap` and `WordMap::get_bits` of bip39: the map sends each word
/// of the English list to its index below 2048, and has no other keys.
#[verifier::external_body]
pub(crate) fn index_of_word(word: &str) -> (r: Option<u16>)
    ensures
        r == english_index(word@),
        r matches Some(i) ==> i < WORD_LIST_LEN && english_word(i as int) == word@,
{
    match bip39::Language::English.wordmap().get_bits(word) {
        Ok(bits) => Some(u16::from(bits)),
        Err(_) => None,
    }
}

} // verus!
