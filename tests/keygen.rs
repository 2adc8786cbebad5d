use keygen::error::KeyGenError;
use keygen::keygen::{generate_keypair, generate_keypair_from_entropy};
use keygen::keypair::derive_keypair;
use keygen::mnemonic::{entropy_len, generate_mnemonic, parse_mnemonic};
use keygen::seed::derive_seed;

fn hex(s: &str) -> Vec<u8> {
    (0..s.len() / 2)
        .map(|i| u8::from_str_radix(&s[2 * i..2 * i + 2], 16).unwrap())
        .collect()
}

fn to_words(s: &str) -> Vec<String> {
    s.split(' ').map(|w| w.to_string()).collect()
}

const ABANDON_ABOUT: &str = "abandon abandon abandon abandon abandon abandon abandon abandon abandon abandon abandon about";
const ABANDON_ABOUT_SEED: &str = "5eb00bbddcf069084889a8ab9155568165f5c453ccb85e70811aaed6f6da5fc19a5ac40b389cd370d086206dec8aa6c43daea6690f20ad3d8d48b2d2ce9e38e4";

#[test]
fn zero_entropy_gives_abandon_about() {
    let m = generate_mnemonic(12, &[0u8; 16]).unwrap();
    assert_eq!(m.sentence(), ABANDON_ABOUT);
    assert_eq!(m.words().len(), 12);
    assert_eq!(m.entropy(), &vec![0u8; 16]);
}

#[test]
fn standard_vectors_encode() {
    let cases = [
        ("7f7f7f7f7f7f7f7f7f7f7f7f7f7f7f7f", "legal winner thank year wave sausage worth useful legal winner thank yellow"),
        ("ffffffffffffffffffffffffffffffff", "zoo zoo zoo zoo zoo zoo zoo zoo zoo zoo zoo wrong"),
        ("33e46bb13a746ea41cdde45c90846a79", "crop cash unable insane eight faith inflict route frame loud box vibrant"),
        ("000102030405060708090a0b0c0d0e0f", "abandon amount liar amount expire adjust cage candy arch gather drum buyer"),
    ];
    for (e, phrase) in cases {
        let m = generate_mnemonic(12, &hex(e)).unwrap();
        assert_eq!(m.sentence(), phrase);
        assert_eq!(parse_mnemonic(&to_words(phrase)), Ok(hex(e)));
    }
}

#[test]
fn longer_phrases_encode() {
    let cases = [
        (15usize, "abandon abandon abandon abandon abandon abandon abandon abandon abandon abandon abandon abandon abandon abandon address"),
        (18, "abandon abandon abandon abandon abandon abandon abandon abandon abandon abandon abandon abandon abandon abandon abandon abandon abandon agent"),
        (21, "abandon abandon abandon abandon abandon abandon abandon abandon abandon abandon abandon abandon abandon abandon abandon abandon abandon abandon abandon abandon admit"),
        (24, "abandon abandon abandon abandon abandon abandon abandon abandon abandon abandon abandon abandon abandon abandon abandon abandon abandon abandon abandon abandon abandon abandon abandon art"),
    ];
    for (n, phrase) in cases {
        let len = entropy_len(n).unwrap();
        let m = generate_mnemonic(n, &vec![0u8; len]).unwrap();
        assert_eq!(m.sentence(), phrase);
        assert_eq!(m.word_count(), n);
    }
}

#[test]
fn entropy_lengths_follow_word_counts() {
    assert_eq!(entropy_len(12), Ok(16));
    assert_eq!(entropy_len(15), Ok(20));
    assert_eq!(entropy_len(18), Ok(24));
    assert_eq!(entropy_len(21), Ok(28));
    assert_eq!(entropy_len(24), Ok(32));
    assert_eq!(entropy_len(13), Err(KeyGenError::InvalidWordCount));
    assert_eq!(entropy_len(0), Err(KeyGenError::InvalidWordCount));
}

#[test]
fn round_trip_every_word_count() {
    for n in [12usize, 15, 18, 21, 24] {
        let len = entropy_len(n).unwrap();
        let entropy: Vec<u8> = (0..len).map(|i| (i as u8).wrapping_mul(37).wrapping_add(11)).collect();
        let m = generate_mnemonic(n, &entropy).unwrap();
        let back = parse_mnemonic(m.words()).unwrap();
        assert_eq!(back, entropy);
        assert_eq!(back.len() * 8, n * 11 - n / 3);
    }
}

#[test]
fn word_count_boundary() {
    assert_eq!(generate_mnemonic(13, &[0u8; 16]).err(), Some(KeyGenError::InvalidWordCount));
    assert_eq!(generate_keypair(13, &None).err(), Some(KeyGenError::InvalidWordCount));
    for n in [12usize, 15, 18, 21, 24] {
        let (m, kp) = generate_keypair(n, &None).unwrap();
        assert_eq!(m.word_count(), n);
        assert_eq!(m.words().len(), n);
        assert_eq!(kp.public_key().len(), 32);
    }
}

#[test]
fn entropy_of_wrong_length_is_refused() {
    assert_eq!(generate_mnemonic(12, &[0u8; 20]).err(), Some(KeyGenError::InvalidEntropyLength));
    assert_eq!(generate_mnemonic(24, &[0u8; 16]).err(), Some(KeyGenError::InvalidEntropyLength));
}

#[test]
fn parse_errors() {
    let mut unknown = to_words(ABANDON_ABOUT);
    unknown[3] = "abandonx".to_string();
    assert_eq!(parse_mnemonic(&unknown), Err(KeyGenError::UnknownWord));
    let short = to_words("abandon abandon abandon");
    assert_eq!(parse_mnemonic(&short), Err(KeyGenError::InvalidWordCount));
    let mut thirteen = to_words(ABANDON_ABOUT);
    thirteen.push("abandon".to_string());
    assert_eq!(parse_mnemonic(&thirteen), Err(KeyGenError::InvalidWordCount));
}

#[test]
fn checksum_detects_changed_words() {
    let mut last = to_words(ABANDON_ABOUT);
    last[11] = "abandon".to_string();
    assert_eq!(parse_mnemonic(&last), Err(KeyGenError::ChecksumMismatch));
    let mut second = to_words(ABANDON_ABOUT);
    second[1] = "able".to_string();
    assert_eq!(parse_mnemonic(&second), Err(KeyGenError::ChecksumMismatch));
    let mut third = to_words("legal winner thank year wave sausage worth useful legal winner thank yellow");
    third[11] = "yard".to_string();
    assert_eq!(parse_mnemonic(&third), Err(KeyGenError::ChecksumMismatch));
}

#[test]
fn seed_matches_standard_vector() {
    let m = generate_mnemonic(12, &[0u8; 16]).unwrap();
    let seed = derive_seed(&m, "");
    assert_eq!(seed.as_bytes(), hex(ABANDON_ABOUT_SEED).as_slice());
    let trezor = derive_seed(&m, "TREZOR");
    assert_eq!(
        trezor.as_bytes(),
        hex("c55257c360c07c72029aebc1b53c05ed0362ada38ead3e3e9efa3708e53495531f09a6987599d18264c1e1c92f2cf141630c7a3c4ab7c81b2f001698e7463b04").as_slice()
    );
}

#[test]
fn end_to_end_public_key() {
    let entropy = parse_mnemonic(&to_words(ABANDON_ABOUT)).unwrap();
    let m = generate_mnemonic(12, &entropy).unwrap();
    let seed = derive_seed(&m, "");
    assert_eq!(seed.as_bytes().len(), 64);
    let kp = derive_keypair(seed.as_bytes()).unwrap();
    assert_eq!(kp.secret_key(), &hex(ABANDON_ABOUT_SEED)[..32].to_vec());
    assert_eq!(kp.public_key(), &hex("c5785e1865b708938aff8161d573006496663b1aa10834e396dc566869a2c66a"));
    let (m2, kp2) = generate_keypair_from_entropy(12, &entropy, &None).unwrap();
    assert_eq!(m2.sentence(), ABANDON_ABOUT);
    assert_eq!(kp2.to_bytes(), kp.to_bytes());
}

#[test]
fn derivation_is_deterministic() {
    let m = generate_mnemonic(12, &hex("7f7f7f7f7f7f7f7f7f7f7f7f7f7f7f7f")).unwrap();
    let a = derive_seed(&m, "pass");
    let b = derive_seed(&m, "pass");
    assert_eq!(a.as_bytes(), b.as_bytes());
    let ka = derive_keypair(a.as_bytes()).unwrap();
    let kb = derive_keypair(b.as_bytes()).unwrap();
    assert_eq!(ka.to_bytes(), kb.to_bytes());
    let reparsed = generate_mnemonic(12, &parse_mnemonic(m.words()).unwrap()).unwrap();
    assert_eq!(derive_seed(&reparsed, "pass").as_bytes(), a.as_bytes());
}

#[test]
fn passphrase_changes_the_seed() {
    let m = generate_mnemonic(12, &[0u8; 16]).unwrap();
    let empty = derive_seed(&m, "");
    let other = derive_seed(&m, "nonempty");
    assert_ne!(empty.as_bytes(), other.as_bytes());
    assert_eq!(
        other.as_bytes(),
        hex("efdf395070f7948fdc553bb55bdc5208483e7bd06262dfd6f4dfa220753c58829280c517fa390ce0d2e01a826d6c5a5441ab87142fbc62b5d8036b2193621e6b").as_slice()
    );
}

#[test]
fn missing_passphrase_is_empty_passphrase() {
    let entropy = [0x5au8; 16];
    let (_, none) = generate_keypair_from_entropy(12, &entropy, &None).unwrap();
    let (_, empty) = generate_keypair_from_entropy(12, &entropy, &Some(String::new())).unwrap();
    let (_, other) = generate_keypair_from_entropy(12, &entropy, &Some("x".to_string())).unwrap();
    assert_eq!(none.to_bytes(), empty.to_bytes());
    assert_ne!(none.to_bytes(), other.to_bytes());
}

#[test]
fn keypair_rfc8032_vector() {
    let mut seed = hex("9d61b19deffd5a60ba844af492ec2cc44449c5697b326919703bac031cae7f60");
    seed.extend_from_slice(&[0xaa; 32]);
    let kp = derive_keypair(&seed).unwrap();
    assert_eq!(kp.public_key(), &hex("d75a980182b10ab7d54bfed3c964073a0ee172f3daa62325af021a68f707511a"));
    assert_eq!(kp.secret_key(), &seed[..32].to_vec());
    let bytes = kp.to_bytes();
    assert_eq!(bytes.len(), 64);
    assert_eq!(&bytes[..32], &seed[..32]);
    assert_eq!(&bytes[32..], kp.public_key().as_slice());
}

#[test]
fn short_seed_is_refused() {
    assert_eq!(derive_keypair(&[1u8; 31]).err(), Some(KeyGenError::InvalidSeedLength));
    assert_eq!(derive_keypair(&[]).err(), Some(KeyGenError::InvalidSeedLength));
    assert!(derive_keypair(&[1u8; 32]).is_ok());
}

#[test]
fn random_mnemonics_parse_back() {
    let (m1, _) = generate_keypair(24, &Some("p".to_string())).unwrap();
    let (m2, _) = generate_keypair(24, &Some("p".to_string())).unwrap();
    assert_eq!(parse_mnemonic(m1.words()).unwrap(), m1.entropy().clone());
    assert_eq!(m1.entropy().len(), 32);
    assert_ne!(m1.entropy(), m2.entropy());
}
