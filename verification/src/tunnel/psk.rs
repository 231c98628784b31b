//! The pre-shared key.
use crate::tunnel::error::{self, Error};
use crate::tunnel::{crypto, encoding, keys};
use vstd::prelude::*;

verus! {

pub const PSK_LEN: usize = 32;

pub const MIN_SALT_LEN: usize = 8;

/// A key both ends share.
pub struct Psk([u8; 32]);

impl View for Psk {
    type V = Seq<u8>;

    closed spec fn view(&self) -> Seq<u8> {
        self.0@
    }
}

impl Clone for Psk {
    fn clone(&self) -> (r: Self)
        ensures
            r@ == self@,
    {
        Psk(self.0)
    }
}

impl Drop for Psk {
    fn drop(&mut self)
        opens_invariants none
        no_unwind
    {
        crypto::zeroize_bytes(&mut self.0);
    }
}

/// The outcome of reading a pre-shared key from a text.
pub open spec fn psk_of(s: Seq<char>) -> Result<Seq<u8>, error::ErrorView> {
    keys::bytes32_of(s, "invalid base64 psk", "psk must be 32 bytes")
}

/// The outcome of deriving a pre-shared key from a passphrase and a salt.
pub open spec fn derived(passphrase: Seq<u8>, salt: Seq<u8>) -> Result<Seq<u8>, error::ErrorView> {
    if salt.len() < MIN_SALT_LEN {
        Err(error::violation("salt must be at least 8 bytes"))
    } else if crypto::argon2_accepts(passphrase, salt) {
        Ok(crypto::argon2id(passphrase, salt))
    } else {
        Err(error::violation("argon2 derivation failed"))
    }
}

/// The Base64 form of a pre-shared key reads back as that key.
pub proof fn psk_round_trip(k: Seq<u8>)
    requires
        k.len() == 32,
    ensures
        psk_of(encoding::base64(k)) == Ok::<Seq<u8>, error::ErrorView>(k),
{
    keys::bytes32_round_trip(k, "invalid base64 psk", "psk must be 32 bytes");
}

/// A passphrase and a salt of at least 8 bytes, neither longer than 32 bits can count, give their
/// Argon2id hash; a shorter salt is refused.
pub proof fn passphrases_give_keys(passphrase: Seq<u8>, salt: Seq<u8>)
    ensures
        8 <= salt.len() <= 0xffff_ffff && passphrase.len() <= 0xffff_ffff ==> derived(
            passphrase,
            salt,
        ) == Ok::<Seq<u8>, error::ErrorView>(crypto::argon2id(passphrase, salt)),
        salt.len() < 8 ==> derived(passphrase, salt) is Err,
        derived(passphrase, salt) matches Ok(k) ==> k == crypto::argon2id(passphrase, salt),
{
}

/// A pre-shared key in Base64 reads back from the file that holds it, on a line of its own.
pub proof fn psk_file_reads_back(k: Seq<u8>)
    requires
        k.len() == 32,
    ensures
        psk_of(encoding::base64(k)) == Ok::<Seq<u8>, error::ErrorView>(k),
        psk_of(encoding::base64(k).push('\n')) == Ok::<Seq<u8>, error::ErrorView>(k),
{
    psk_round_trip(k);
    keys::bytes32_are_read(
        k,
        Seq::empty(),
        Seq::empty(),
        "invalid base64 psk",
        "psk must be 32 bytes",
    );
}

impl Psk {
    pub fn from_bytes(b: [u8; 32]) -> (r: Self)
        ensures
            r@ == b@,
    {
        Psk(b)
    }

    pub fn as_bytes(&self) -> (r: &[u8; 32])
        ensures
            r@ == self@,
    {
        &self.0
    }

    pub fn from_base64(s: &str) -> (r: Result<Self, Error>)
        ensures
            match r {
                Ok(k) => psk_of(s@) == Ok::<Seq<u8>, error::ErrorView>(k@),
                Err(e) => psk_of(s@) == Err::<Seq<u8>, error::ErrorView>(e@),
            },
    {
        match keys::decode32(s, "invalid base64 psk", "psk must be 32 bytes") {
            Ok(b) => Ok(Psk(b)),
            Err(e) => Err(e),
        }
    }

    pub fn from_passphrase(passphrase: &[u8], salt: &[u8]) -> (r: Result<Self, Error>)
        ensures
            match r {
                Ok(k) => derived(passphrase@, salt@) == Ok::<Seq<u8>, error::ErrorView>(k@),
                Err(e) => derived(passphrase@, salt@) == Err::<Seq<u8>, error::ErrorView>(e@),
            },
    {
        if salt.len() < MIN_SALT_LEN {
            return Err(Error::protocol("salt must be at least 8 bytes"));
        }
        match crypto::argon2_hash(passphrase, salt) {
            Some(b) => Ok(Psk(b)),
            None => Err(Error::protocol("argon2 derivation failed")),
        }
    }
}

} // verus!
