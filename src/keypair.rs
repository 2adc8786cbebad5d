//! The Ed25519 signing keypair taken from the first 32 bytes of a seed.
use crate::error::KeyGenError;
use vstd::prelude::*;

verus! {

/// Length of an Ed25519 secret key, and of the seed prefix it is taken from.
pub const SECRET_KEY_LEN: usize = 32;

/// The Ed25519 public key of the 32-byte secret key `secret`.
pub uninterp spec fn ed25519_public_key(secret: Seq<u8>) -> Seq<u8>;

/// Relies on solana's `keypair_from_seed`, which fails exactly when the seed is shorter than
/// 32 bytes and otherwise takes its first 32 bytes as the Ed25519 secret key, and on
/// `Keypair::to_bytes`, which lays out that secret key followed by its 32-byte public key.
#[verifier::external_body]
#[allow(deprecated)]
fn keypair_bytes_from_seed(seed: &[u8]) -> (r: Option<Vec<u8>>)
    ensures
        r is Some <==> seed@.len() >= SECRET_KEY_LEN,
        r matches Some(b) ==> b@.len() == 64 && b@.subrange(0, 32) == seed@.subrange(0, 32)
            && b@.subrange(32, 64) == ed25519_public_key(seed@.subrange(0, 32)),
{
    match solana_sdk::signature::keypair_from_seed(seed) {
        Ok(kp) => Some(kp.to_bytes().to_vec()),
        Err(_) => None,
    }
}

/// What a seed gives: its 32-byte secret key prefix and that key's public key, or the
/// error for a seed that is too short.
pub open spec fn keypair_of_seed(seed: Seq<u8>) -> Result<(Seq<u8>, Seq<u8>), KeyGenError> {
    if seed.len() < SECRET_KEY_LEN {
        Err(KeyGenError::InvalidSeedLength)
    } else {
        Ok((seed.subrange(0, 32), ed25519_public_key(seed.subrange(0, 32))))
    }
}

fn copy_range(s: &Vec<u8>, lo: usize, hi: usize) -> (r: Vec<u8>)
    requires
        lo <= hi <= s@.len(),
    ensures
        r@ == s@.subrange(lo as int, hi as int),
{
    let mut r: Vec<u8> = Vec::new();
    let mut i: usize = lo;
    while i < hi
        invariant
            lo <= i <= hi <= s@.len(),
            r@ == s@.subrange(lo as int, i as int),
        decreases hi - i,
    {
        r.push(s[i]);
        proof {
            assert(s@.subrange(lo as int, i + 1) =~= s@.subrange(lo as int, i as int).push(
                s@[i as int],
            ));
        }
        i = i + 1;
    }
    r
}

/// A secret signing key and its public key, 32 bytes each.
pub struct Keypair {
    secret: Vec<u8>,
    public: Vec<u8>,
}

impl Keypair {
    pub closed spec fn secret_view(&self) -> Seq<u8> {
        self.secret@
    }

    pub closed spec fn public_view(&self) -> Seq<u8> {
        self.public@
    }

    pub fn secret_key(&self) -> (r: &Vec<u8>)
        ensures
            r@ == self.secret_view(),
    {
        &self.secret
    }

    pub fn public_key(&self) -> (r: &Vec<u8>)
        ensures
            r@ == self.public_view(),
    {
        &self.public
    }

    /// The 64 bytes that a keypair file holds: the secret key, then the public key.
    pub fn to_bytes(&self) -> (r: Vec<u8>)
        ensures
            r@ == self.secret_view() + self.public_view(),
    {
        let mut r = copy_range(&self.secret, 0, self.secret.len());
        let mut i: usize = 0;
        proof {
            assert(self.secret@.subrange(0, self.secret@.len() as int) =~= self.secret@);
        }
        while i < self.public.len()
            invariant
                i <= self.public@.len(),
                r@ == self.secret@ + self.public@.take(i as int),
            decreases self.public@.len() - i,
        {
            r.push(self.public[i]);
            proof {
                assert(self.secret@ + self.public@.take(i + 1) =~= (self.secret@
                    + self.public@.take(i as int)).push(self.public@[i as int]));
            }
            i = i + 1;
        }
        proof {
            assert(self.public@.take(i as int) =~= self.public@);
        }
        r
    }
}

/// The keypair whose secret key is the first 32 bytes of `seed`.
pub fn derive_keypair(seed: &[u8]) -> (r: Result<Keypair, KeyGenError>)
    ensures
        match r {
            Ok(kp) => keypair_of_seed(seed@) == Ok::<(Seq<u8>, Seq<u8>), KeyGenError>(
                (kp.secret_view(), kp.public_view()),
            ),
            Err(e) => keypair_of_seed(seed@) == Err::<(Seq<u8>, Seq<u8>), KeyGenError>(e),
        },
{
    match keypair_bytes_from_seed(seed) {
        Some(b) => {
            let secret = copy_range(&b, 0, 32);
            let public = copy_range(&b, 32, 64);
            Ok(Keypair { secret, public })
        },
        None => Err(KeyGenError::InvalidSeedLength),
    }
}

} // verus!
