//! Entropy written as a mnemonic phrase and read back: the entropy bits are
//! followed by the leading bits of their SHA-256 digest, and the whole string is
//! cut into 11-bit indices into the word list.
use crate::bits::{
    byte_bits, index_bits, lemma_byte_bits_are_bits, lemma_byte_prefix, lemma_byte_value,
    lemma_index_bit_of_read, lemma_index_bits_are_bits, lemma_msb_value_bound,
    lemma_msb_value_ext, msb_value, pow2_u32, read_byte_bits, read_index_bits,
};
use crate::error::KeyGenError;
use crate::wordlist::{english_index, english_word, index_of_word, word_at};
use vstd::arithmetic::power2::{lemma2_to64, lemma_pow2_pos, pow2};
use vstd::prelude::*;

verus! {

/// The word counts that the standard allows.
pub open spec fn is_word_count(n: int) -> bool {
    n == 12 || n == 15 || n == 18 || n == 21 || n == 24
}

/// Entropy bits carried by `n` words: each word holds 11 bits, `n / 3` of them checksum.
pub open spec fn entropy_bits_for(n: int) -> int {
    n * 11 - n / 3
}

pub open spec fn entropy_len_for(n: int) -> int {
    entropy_bits_for(n) / 8
}

/// The entropy lengths in bytes that the standard allows.
pub open spec fn is_entropy_len(len: int) -> bool {
    len == 16 || len == 20 || len == 24 || len == 28 || len == 32
}

/// Words written for `len` bytes of entropy.
pub open spec fn word_count_for(len: int) -> int {
    len * 3 / 4
}

/// Checksum bits appended to `len` bytes of entropy: one for every 32 bits.
pub open spec fn checksum_bits_for_len(len: int) -> int {
    len / 4
}

/// The SHA-256 digest of `data`.
pub uninterp spec fn sha256_digest(data: Seq<u8>) -> Seq<u8>;

/// The checksum of `entropy`: the leading bits of the first byte of its digest.
pub open spec fn checksum_of(entropy: Seq<u8>) -> nat {
    (sha256_digest(entropy)[0] as nat) / pow2((8 - checksum_bits_for_len(entropy.len() as int)) as nat)
}

/// The entropy followed by the first byte of its digest; its leading bits are the ones encoded.
pub open spec fn checked_bytes(entropy: Seq<u8>) -> Seq<u8> {
    entropy.push(sha256_digest(entropy)[0])
}

/// The word indices that encode `entropy`.
pub open spec fn encoded_indices(entropy: Seq<u8>) -> Seq<u16> {
    Seq::new(
        word_count_for(entropy.len() as int) as nat,
        |k: int| msb_value(byte_bits(checked_bytes(entropy)), 11 * k, 11) as u16,
    )
}

/// The words of the mnemonic phrase for `entropy`.
pub open spec fn mnemonic_words(entropy: Seq<u8>) -> Seq<Seq<char>> {
    encoded_indices(entropy).map_values(|i: u16| english_word(i as int))
}

/// The entropy bytes that a sequence of word indices carries.
pub open spec fn decoded_entropy(indices: Seq<u16>) -> Seq<u8> {
    Seq::new(
        (indices.len() * 4 / 3) as nat,
        |m: int| msb_value(index_bits(indices), 8 * m, 8) as u8,
    )
}

/// The checksum bits that a sequence of word indices carries after its entropy.
pub open spec fn stored_checksum(indices: Seq<u16>) -> nat {
    msb_value(
        index_bits(indices),
        8 * (indices.len() * 4 / 3) as int,
        (indices.len() / 3) as nat,
    )
}

pub open spec fn indices_of(words: Seq<Seq<char>>) -> Seq<u16> {
    words.map_values(
        |w: Seq<char>|
            match english_index(w) {
                Some(i) => i,
                None => 0,
            },
    )
}

pub open spec fn string_views(words: Seq<String>) -> Seq<Seq<char>> {
    words.map_values(|w: String| w@)
}

/// What reading a word sequence back gives: its entropy, or the first fault found.
pub open spec fn parse_words(words: Seq<Seq<char>>) -> Result<Seq<u8>, KeyGenError> {
    if !is_word_count(words.len() as int) {
        Err(KeyGenError::InvalidWordCount)
    } else if exists|k: int| 0 <= k < words.len() && english_index(#[trigger] words[k]) is None {
        Err(KeyGenError::UnknownWord)
    } else {
        let entropy = decoded_entropy(indices_of(words));
        if stored_checksum(indices_of(words)) == checksum_of(entropy) {
            Ok(entropy)
        } else {
            Err(KeyGenError::ChecksumMismatch)
        }
    }
}

/// Words joined by single spaces.
pub open spec fn join_words(words: Seq<Seq<char>>) -> Seq<char>
    decreases words.len(),
{
    if words.len() <= 1 {
        if words.len() == 0 {
            Seq::empty()
        } else {
            words[0]
        }
    } else {
        join_words(words.drop_last()) + seq![' '] + words.last()
    }
}

/// Relies on `solana_sdk::hash::hash`, which is SHA-256 of the bytes: a 32-byte digest.
#[verifier::external_body]
fn sha256(data: &[u8]) -> (r: Vec<u8>)
    ensures
        r@ == sha256_digest(data@),
        r@.len() == 32,
{
    solana_sdk::hash::hash(data).to_bytes().to_vec()
}

/// Relies on `String::push_str`, which appends `tail`.
#[verifier::external_body]
fn append(s: &mut String, tail: &str)
    ensures
        final(s)@ == old(s)@ + tail@,
{
    s.push_str(tail)
}

/// A phrase of words from the list together with the entropy it encodes.
pub struct Mnemonic {
    entropy: Vec<u8>,
    indices: Vec<u16>,
    words: Vec<String>,
}

impl Mnemonic {
    pub closed spec fn entropy_view(&self) -> Seq<u8> {
        self.entropy@
    }

    pub closed spec fn words_view(&self) -> Seq<Seq<char>> {
        string_views(self.words@)
    }

    /// The words encode the entropy, checksum included.
    pub closed spec fn wf(&self) -> bool {
        &&& is_entropy_len(self.entropy@.len() as int)
        &&& self.indices@ == encoded_indices(self.entropy@)
        &&& self.words@.len() == self.indices@.len()
        &&& forall|k: int|
            0 <= k < self.words@.len() ==> #[trigger] self.words@[k]@ == english_word(
                self.indices@[k] as int,
            ) && english_index(self.words@[k]@) == Some(self.indices@[k])
    }

    pub proof fn lemma_wf_words(&self)
        requires
            self.wf(),
        ensures
            is_entropy_len(self.entropy_view().len() as int),
            self.words_view() == mnemonic_words(self.entropy_view()),
            self.words_view().len() == word_count_for(self.entropy_view().len() as int),
    {
        assert(self.words_view() =~= mnemonic_words(self.entropy_view()));
    }

    pub fn entropy(&self) -> (r: &Vec<u8>)
        ensures
            r@ == self.entropy_view(),
    {
        &self.entropy
    }

    pub fn words(&self) -> (r: &Vec<String>)
        ensures
            string_views(r@) == self.words_view(),
    {
        &self.words
    }

    pub fn word_count(&self) -> (r: usize)
        ensures
            r == self.words_view().len(),
    {
        self.words.len()
    }

    /// The phrase: the words joined by single spaces.
    pub fn sentence(&self) -> (r: String)
        requires
            self.wf(),
        ensures
            r@ == join_words(self.words_view()),
    {
        let ghost ws = self.words_view();
        let mut s = self.words[0].clone();
        let mut k: usize = 1;
        proof {
            reveal_strlit(" ");
            assert(ws.take(1) =~= seq![ws[0]]);
        }
        while k < self.words.len()
            invariant
                1 <= k <= self.words@.len(),
                ws == self.words_view(),
                s@ == join_words(ws.take(k as int)),
            decreases self.words@.len() - k,
        {
            append(&mut s, " ");
            append(&mut s, self.words[k].as_str());
            proof {
                reveal_strlit(" ");
                assert(ws.take(k + 1).drop_last() =~= ws.take(k as int));
            }
            k = k + 1;
        }
        proof {
            assert(ws.take(k as int) =~= ws);
        }
        s
    }
}

/// The entropy length in bytes that `word_count` words carry.
pub fn entropy_len(word_count: usize) -> (r: Result<usize, KeyGenError>)
    ensures
        is_word_count(word_count as int) ==> r == Ok::<usize, KeyGenError>(
            entropy_len_for(word_count as int) as usize,
        ),
        !is_word_count(word_count as int) ==> r == Err::<usize, KeyGenError>(
            KeyGenError::InvalidWordCount,
        ),
{
    if word_count == 12 || word_count == 15 || word_count == 18 || word_count == 21 || word_count
        == 24 {
        Ok((word_count * 11 - word_count / 3) / 8)
    } else {
        Err(KeyGenError::InvalidWordCount)
    }
}

fn copy_bytes(s: &[u8]) -> (r: Vec<u8>)
    ensures
        r@ == s@,
{
    let mut r: Vec<u8> = Vec::new();
    let mut i: usize = 0;
    while i < s.len()
        invariant
            i <= s@.len(),
            r@ == s@.take(i as int),
        decreases s@.len() - i,
    {
        r.push(s[i]);
        proof {
            assert(s@.take(i + 1) =~= s@.take(i as int).push(s@[i as int]));
        }
        i = i + 1;
    }
    proof {
        assert(s@.take(i as int) =~= s@);
    }
    r
}

proof fn lemma_entropy_len_facts(len: int)
    requires
        is_entropy_len(len),
    ensures
        word_count_for(len) * 11 == 8 * len + checksum_bits_for_len(len),
        word_count_for(len) * 4 / 3 == len,
        word_count_for(len) / 3 == checksum_bits_for_len(len),
        is_word_count(word_count_for(len)),
        entropy_len_for(word_count_for(len)) == len,
        1 <= checksum_bits_for_len(len) <= 8,
{
}

proof fn lemma_word_count_facts(n: int)
    requires
        is_word_count(n),
    ensures
        is_entropy_len(entropy_len_for(n)),
        word_count_for(entropy_len_for(n)) == n,
{
}

/// The checksum of entropy of an allowed length.
fn checksum_value(entropy: &Vec<u8>) -> (r: u32)
    requires
        is_entropy_len(entropy@.len() as int),
    ensures
        r == checksum_of(entropy@),
{
    let digest = sha256(entropy.as_slice());
    let cs: usize = entropy.len() / 4;
    let d = pow2_u32((8 - cs) as u32);
    proof {
        lemma_pow2_pos((8 - cs) as nat);
    }
    digest[0] as u32 / d
}

/// Writes entropy of an allowed length as a mnemonic.
fn encode(entropy: &[u8]) -> (m: Mnemonic)
    requires
        is_entropy_len(entropy@.len() as int),
    ensures
        m.wf(),
        m.entropy_view() == entropy@,
{
    let e = copy_bytes(entropy);
    let digest = sha256(entropy);
    let mut data = copy_bytes(entropy);
    data.push(digest[0]);
    let n: usize = entropy.len() * 3 / 4;
    proof {
        assert(data@ =~= checked_bytes(e@));
        lemma_entropy_len_facts(entropy@.len() as int);
        lemma2_to64();
    }
    let mut indices: Vec<u16> = Vec::new();
    let mut words: Vec<String> = Vec::new();
    let mut k: usize = 0;
    while k < n
        invariant
            n == word_count_for(e@.len() as int),
            n * 11 <= data@.len() * 8,
            n <= 24,
            data@ == checked_bytes(e@),
            k <= n,
            indices@ == encoded_indices(e@).take(k as int),
            words@.len() == k,
            forall|j: int|
                0 <= j < k ==> #[trigger] words@[j]@ == english_word(indices@[j] as int)
                    && english_index(words@[j]@) == Some(indices@[j]),
        decreases n - k,
    {
        proof {
            lemma_byte_bits_are_bits(data@, 11 * k as int, 11);
            lemma_msb_value_bound(byte_bits(data@), 11 * k as int, 11);
            lemma2_to64();
        }
        let v = read_byte_bits(&data, 11 * k, 11);
        let idx = v as u16;
        let word = word_at(idx);
        indices.push(idx);
        words.push(word);
        proof {
            assert(encoded_indices(e@).take(k + 1) =~= encoded_indices(e@).take(k as int).push(
                idx,
            ));
        }
        k = k + 1;
    }
    proof {
        assert(indices@ =~= encoded_indices(e@));
    }
    Mnemonic { entropy: e, indices, words }
}

/// The mnemonic of `word_count` words that writes down `entropy`.
pub fn generate_mnemonic(word_count: usize, entropy: &[u8]) -> (r: Result<Mnemonic, KeyGenError>)
    ensures
        !is_word_count(word_count as int) ==> r == Err::<Mnemonic, KeyGenError>(
            KeyGenError::InvalidWordCount,
        ),
        is_word_count(word_count as int) && entropy@.len() != entropy_len_for(word_count as int)
            ==> r == Err::<Mnemonic, KeyGenError>(KeyGenError::InvalidEntropyLength),
        is_word_count(word_count as int) && entropy@.len() == entropy_len_for(word_count as int)
            ==> (r matches Ok(m) && m.wf() && m.entropy_view() == entropy@ && m.words_view()
            == mnemonic_words(entropy@) && m.words_view().len() == word_count),
{
    let len = match entropy_len(word_count) {
        Ok(len) => len,
        Err(e) => {
            return Err(e);
        },
    };
    if entropy.len() != len {
        return Err(KeyGenError::InvalidEntropyLength);
    }
    proof {
        lemma_word_count_facts(word_count as int);
    }
    let m = encode(entropy);
    proof {
        m.lemma_wf_words();
    }
    Ok(m)
}

/// The entropy bytes carried by a sequence of word indices.
fn decode_entropy(indices: &Vec<u16>) -> (r: Vec<u8>)
    requires
        is_word_count(indices@.len() as int),
    ensures
        r@ == decoded_entropy(indices@),
{
    let len: usize = indices.len() * 4 / 3;
    let mut r: Vec<u8> = Vec::new();
    let mut m: usize = 0;
    while m < len
        invariant
            len == indices@.len() * 4 / 3,
            is_word_count(indices@.len() as int),
            m <= len,
            r@ == decoded_entropy(indices@).take(m as int),
        decreases len - m,
    {
        proof {
            lemma_index_bits_are_bits(indices@, 8 * m as int, 8);
            lemma_msb_value_bound(index_bits(indices@), 8 * m as int, 8);
            lemma2_to64();
        }
        let b = read_index_bits(indices, 8 * m, 8) as u8;
        r.push(b);
        proof {
            assert(decoded_entropy(indices@).take(m + 1) =~= decoded_entropy(indices@).take(
                m as int,
            ).push(b));
        }
        m = m + 1;
    }
    proof {
        assert(r@ =~= decoded_entropy(indices@));
    }
    r
}

/// Reads a word sequence back to the entropy it carries, checking every word and the checksum.
pub fn parse_mnemonic(words: &Vec<String>) -> (r: Result<Vec<u8>, KeyGenError>)
    ensures
        match r {
            Ok(e) => parse_words(string_views(words@)) == Ok::<Seq<u8>, KeyGenError>(e@),
            Err(x) => parse_words(string_views(words@)) == Err::<Seq<u8>, KeyGenError>(x),
        },
{
    let ghost ws = string_views(words@);
    let n = words.len();
    if !(n == 12 || n == 15 || n == 18 || n == 21 || n == 24) {
        return Err(KeyGenError::InvalidWordCount);
    }
    let mut indices: Vec<u16> = Vec::new();
    let mut k: usize = 0;
    while k < n
        invariant
            n == words@.len(),
            ws == string_views(words@),
            ws.len() == n,
            is_word_count(n as int),
            k <= n,
            indices@.len() == k,
            forall|j: int| 0 <= j < k ==> english_index(#[trigger] ws[j]) == Some(indices@[j]),
        decreases n - k,
    {
        match index_of_word(words[k].as_str()) {
            Some(i) => {
                proof {
                    assert(ws[k as int] == words@[k as int]@);
                }
                indices.push(i);
            },
            None => {
                proof {
                    assert(ws[k as int] == words@[k as int]@);
                    assert(english_index(ws[k as int]) is None);
                    assert(is_word_count(ws.len() as int));
                }
                return Err(KeyGenError::UnknownWord);
            },
        }
        k = k + 1;
    }
    proof {
        assert(indices@ =~= indices_of(ws));
    }
    let entropy = decode_entropy(&indices);
    let len: usize = n * 4 / 3;
    let cs: usize = n / 3;
    let stored = read_index_bits(&indices, 8 * len, cs);
    proof {
        lemma_word_count_facts(n as int);
    }
    let expected = checksum_value(&entropy);
    if stored == expected {
        Ok(entropy)
    } else {
        Err(KeyGenError::ChecksumMismatch)
    }
}

/// Decoding the indices that encode entropy gives the entropy back, and the checksum they
/// carry is the entropy's checksum.
pub proof fn lemma_decode_encode(entropy: Seq<u8>)
    requires
        is_entropy_len(entropy.len() as int),
    ensures
        decoded_entropy(encoded_indices(entropy)) == entropy,
        stored_checksum(encoded_indices(entropy)) == checksum_of(entropy),
{
    let len = entropy.len() as int;
    let data = checked_bytes(entropy);
    let idx = encoded_indices(entropy);
    let n = idx.len() as int;
    let bits = byte_bits(data);
    lemma_entropy_len_facts(len);
    lemma2_to64();
    assert forall|i: int| 0 <= i < n * 11 implies #[trigger] index_bits(idx)(i) == bits(i) by {
        let k = i / 11;
        lemma_byte_bits_are_bits(data, 11 * k, 11);
        lemma_msb_value_bound(bits, 11 * k, 11);
        lemma_index_bit_of_read(idx, bits, i);
    }
    let dec = decoded_entropy(idx);
    assert forall|m: int| 0 <= m < len implies #[trigger] dec[m] == entropy[m] by {
        lemma_msb_value_ext(index_bits(idx), bits, 8 * m, 8);
        lemma_byte_value(data, m);
    }
    assert(dec =~= entropy);
    let cs = checksum_bits_for_len(len);
    lemma_msb_value_ext(index_bits(idx), bits, 8 * len, cs as nat);
    lemma_byte_prefix(data, len, cs as nat);
}

/// Reading back the words of a mnemonic succeeds and gives its entropy, whose length is the
/// one its word count asks for.
pub proof fn lemma_round_trip(m: Mnemonic)
    requires
        m.wf(),
    ensures
        parse_words(m.words_view()) == Ok::<Seq<u8>, KeyGenError>(m.entropy_view()),
        m.entropy_view().len() == entropy_len_for(m.words_view().len() as int),
{
    let e = m.entropy_view();
    let ws = m.words_view();
    m.lemma_wf_words();
    lemma_entropy_len_facts(e.len() as int);
    assert forall|k: int| 0 <= k < ws.len() implies english_index(#[trigger] ws[k]) == Some(
        m.indices@[k],
    ) by {
        assert(ws[k] == m.words@[k]@);
    }
    assert(indices_of(ws) =~= encoded_indices(e));
    lemma_decode_encode(e);
}

/// A phrase of listed words that carries the same entropy bits as a mnemonic but other
/// checksum bits is rejected with `ChecksumMismatch`.
pub proof fn lemma_checksum_bits_checked(m: Mnemonic, words: Seq<Seq<char>>)
    requires
        m.wf(),
        words.len() == m.words_view().len(),
        forall|k: int| 0 <= k < words.len() ==> english_index(#[trigger] words[k]) is Some,
        decoded_entropy(indices_of(words)) == m.entropy_view(),
        stored_checksum(indices_of(words)) != stored_checksum(indices_of(m.words_view())),
    ensures
        parse_words(words) == Err::<Seq<u8>, KeyGenError>(KeyGenError::ChecksumMismatch),
{
    lemma_round_trip(m);
    m.lemma_wf_words();
    lemma_entropy_len_facts(m.entropy_view().len() as int);
    assert(!(exists|k: int| 0 <= k < m.words_view().len() && english_index(
        #[trigger] m.words_view()[k],
    ) is None));
}

} // verus!
