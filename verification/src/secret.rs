//! Pre-shared keys as the configuration gives them.
use crate::failure::Failure;
use crate::tunnel::error;
use crate::tunnel::{crypto, encoding};
use crate::tunnel::psk::{self, Psk};
use vstd::prelude::*;

verus! {

/// A pre-shared key read from Base64 text.
pub open spec fn psk_text(b64: Seq<char>) -> Result<Seq<u8>, Seq<Seq<char>>> {
    match psk::psk_of(b64) {
        Ok(k) => Ok(k),
        Err(e) => Err(seq![error::message(e), "invalid PSK"@]),
    }
}

/// Reads a pre-shared key from Base64 text.
pub fn parse_psk(b64: &str) -> (r: Result<Psk, Failure>)
    ensures
        match r {
            Ok(k) => psk_text(b64@) == Ok::<Seq<u8>, Seq<Seq<char>>>(k@),
            Err(e) => psk_text(b64@) == Err::<Seq<u8>, Seq<Seq<char>>>(e@),
        },
{
    match Psk::from_base64(b64) {
        Ok(k) => Ok(k),
        Err(e) => Err(Failure::caused_by(e, "invalid PSK".to_owned())),
    }
}

/// A pre-shared key derived from a passphrase and a salt.
pub open spec fn passphrase_psk(passphrase: Seq<char>, salt: Seq<char>) -> Result<
    Seq<u8>,
    Seq<Seq<char>>,
> {
    match psk::derived(vstd::utf8::encode_utf8(passphrase), vstd::utf8::encode_utf8(salt)) {
        Ok(k) => Ok(k),
        Err(e) => Err(seq![error::message(e), "deriving PSK from passphrase"@]),
    }
}

/// Derives a pre-shared key from a passphrase and a salt.
pub fn derive_psk(passphrase: &str, salt: &str) -> (r: Result<Psk, Failure>)
    ensures
        match r {
            Ok(k) => passphrase_psk(passphrase@, salt@) == Ok::<Seq<u8>, Seq<Seq<char>>>(k@),
            Err(e) => passphrase_psk(passphrase@, salt@) == Err::<Seq<u8>, Seq<Seq<char>>>(e@),
        },
{
    match Psk::from_passphrase(passphrase.as_bytes(), salt.as_bytes()) {
        Ok(k) => Ok(k),
        Err(e) => Err(Failure::caused_by(e, "deriving PSK from passphrase".to_owned())),
    }
}

/// A pre-shared key written in Base64, on a line of its own or not, is read as that key.
pub proof fn psk_texts_are_read(k: Seq<u8>)
    requires
        k.len() == 32,
    ensures
        psk_text(encoding::base64(k)) == Ok::<Seq<u8>, Seq<Seq<char>>>(k),
        psk_text(encoding::base64(k).push('\n')) == Ok::<Seq<u8>, Seq<Seq<char>>>(k),
{
    psk::psk_file_reads_back(k);
}

/// A text is read as a pre-shared key exactly if the tunnel reads it as one, and as the same one.
pub proof fn psk_texts_are_those_of_the_tunnel(b64: Seq<char>)
    ensures
        match psk::psk_of(b64) {
            Ok(k) => psk_text(b64) == Ok::<Seq<u8>, Seq<Seq<char>>>(k),
            Err(_) => psk_text(b64) is Err,
        },
{
}

/// A passphrase and a salt of at least 8 bytes give the Argon2id hash of their UTF-8 forms; a
/// shorter salt gives nothing.
pub proof fn passphrases_give_keys(passphrase: Seq<char>, salt: Seq<char>)
    ensures
        ({
            let p = vstd::utf8::encode_utf8(passphrase);
            let s = vstd::utf8::encode_utf8(salt);
            &&& 8 <= s.len() <= 0xffff_ffff && p.len() <= 0xffff_ffff ==> passphrase_psk(
                passphrase,
                salt,
            ) == Ok::<Seq<u8>, Seq<Seq<char>>>(crypto::argon2id(p, s))
            &&& s.len() < 8 ==> passphrase_psk(passphrase, salt) is Err
            &&& passphrase_psk(passphrase, salt) matches Ok(k) ==> k == crypto::argon2id(p, s)
        }),
{
}

} // verus!
