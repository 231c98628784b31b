//! The outside primitives the tunnel rests on: what each call is taken to do.
use argon2::Argon2;
use chacha20poly1305::aead::{Aead, KeyInit, Payload};
use chacha20poly1305::Nonce;
use noise_protocol::patterns::noise_ik_psk2;
use noise_protocol::{CipherState, HandshakeState, HandshakeStateBuilder, U8Array, DH};
use noise_rust_crypto::{Blake2s, ChaCha20Poly1305, X25519};
use std::time::SystemTime;
use vstd::prelude::*;
use zeroize::Zeroize;

verus! {

/// What `Blake2s::hkdf` gives as its first output.
pub uninterp spec fn blake2s_hkdf(label: Seq<u8>, input: Seq<u8>) -> Seq<u8>;

/// What ChaCha20-Poly1305 gives for a message: the ciphertext with its tag.
pub uninterp spec fn aead_sealed(key: Seq<u8>, nonce: Seq<u8>, aad: Seq<u8>, message: Seq<u8>) -> Seq<u8>;

/// What ChaCha20-Poly1305 gives back of a ciphertext with its tag, if the tag is right.
pub uninterp spec fn aead_opened(key: Seq<u8>, nonce: Seq<u8>, aad: Seq<u8>, sealed: Seq<u8>) -> Option<Seq<u8>>;

/// What a Noise cipher state gives for a plaintext at counter `n`.
pub uninterp spec fn noise_sealed(key: Seq<u8>, n: u64, plaintext: Seq<u8>) -> Seq<u8>;

/// What a Noise cipher state gives back of a ciphertext at counter `n`, if its tag is right.
pub uninterp spec fn noise_opened(key: Seq<u8>, n: u64, sealed: Seq<u8>) -> Option<Seq<u8>>;

/// The X25519 public key of a secret key.
pub uninterp spec fn x25519_public(secret: Seq<u8>) -> Seq<u8>;

/// The Argon2id hash of a passphrase under a salt, 32 bytes long, with the default parameters.
pub uninterp spec fn argon2id(passphrase: Seq<u8>, salt: Seq<u8>) -> Seq<u8>;

/// The first message of an `IKpsk2` handshake: what the initiator with static secret `s` and
/// ephemeral secret `e` sends to the responder with public key `rs`.
pub uninterp spec fn noise_first_message(prologue: Seq<u8>, s: Seq<u8>, rs: Seq<u8>, e: Seq<u8>) -> Seq<u8>;

/// The initiator's public key, as the responder with static secret `s` reads it in a first
/// message, if that message is authentic.
pub uninterp spec fn noise_initiator_of(prologue: Seq<u8>, s: Seq<u8>, first: Seq<u8>) -> Option<Seq<u8>>;

/// The responder's answer to a first message, with the two transport keys (initiator to responder,
/// responder to initiator), if the first message is authentic.
pub uninterp spec fn noise_second_message(prologue: Seq<u8>, s: Seq<u8>, psk: Seq<u8>, e: Seq<u8>, first: Seq<u8>) -> Option<(Seq<u8>, Seq<u8>, Seq<u8>)>;

/// The two transport keys (initiator to responder, responder to initiator) that the initiator
/// derives from the second message, if that message is authentic.
pub uninterp spec fn noise_finished(prologue: Seq<u8>, s: Seq<u8>, rs: Seq<u8>, psk: Seq<u8>, e: Seq<u8>, second: Seq<u8>) -> Option<(Seq<u8>, Seq<u8>)>;

/// `getrandom::fill` on `n` bytes. Nothing is said of what the bytes are, nor of when the system
/// has none to give.
#[verifier::external_body]
pub(crate) fn random_bytes(n: usize) -> (r: Option<Vec<u8>>)
    ensures
        r matches Some(v) ==> v@.len() == n,
{
    let mut v = vec![0u8; n];
    getrandom::fill(&mut v).ok()?;
    Some(v)
}

/// The time of day, a point in time as the system tells it.
#[verifier::external_type_specification]
#[verifier::external_body]
pub struct ExSystemTime(SystemTime);

/// `SystemTime::now`. Nothing is said of what the system's clock shows.
#[verifier::external_body]
pub(crate) fn time_of_day() -> SystemTime {
    SystemTime::now()
}

/// `SystemTime::duration_since` the Unix epoch, in whole seconds; none for a time before it.
/// Which times those are is left unsaid: a point in time is opaque here.
#[verifier::external_body]
pub(crate) fn seconds_since_epoch(t: SystemTime) -> Option<u64> {
    t.duration_since(SystemTime::UNIX_EPOCH).ok().map(|d| d.as_secs())
}

/// `Blake2s::hkdf`, first output. A label longer than a block of the hash makes it panic.
#[verifier::external_body]
pub(crate) fn hkdf_first(label: &[u8], input: &[u8]) -> (r: [u8; 32])
    requires
        label@.len() <= 64,
    ensures
        r@ == blake2s_hkdf(label@, input@),
{
    let (first, _) = <Blake2s as noise_protocol::Hash>::hkdf(label, input);
    *first
}

/// `ChaCha20Poly1305::encrypt`. The result is the message's length and a tag of 16 bytes, and
/// opens to the message.
#[verifier::external_body]
pub(crate) fn aead_seal(key: &[u8; 32], nonce: &[u8; 12], aad: &[u8], message: &[u8]) -> (r: Vec<u8>)
    requires
        message@.len() <= 0xffff,
    ensures
        r@ == aead_sealed(key@, nonce@, aad@, message@),
        r@.len() == message@.len() + 16,
        aead_opened(key@, nonce@, aad@, r@) == Some(message@),
{
    let cipher = chacha20poly1305::ChaCha20Poly1305::new(key.into());
    cipher.encrypt(Nonce::from_slice(nonce), Payload { msg: message, aad }).unwrap()
}

/// `ChaCha20Poly1305::decrypt`. What opens is the sealing of what it opens to.
#[verifier::external_body]
pub(crate) fn aead_open(key: &[u8; 32], nonce: &[u8; 12], aad: &[u8], sealed: &[u8]) -> (r: Option<Vec<u8>>)
    ensures
        match r {
            Some(m) => aead_opened(key@, nonce@, aad@, sealed@) == Some(m@),
            None => aead_opened(key@, nonce@, aad@, sealed@) is None,
        },
        r matches Some(m) ==> m@.len() + 16 == sealed@.len() && aead_sealed(
            key@,
            nonce@,
            aad@,
            m@,
        ) == sealed@,
{
    let cipher = chacha20poly1305::ChaCha20Poly1305::new(key.into());
    cipher.decrypt(Nonce::from_slice(nonce), Payload { msg: sealed, aad }).ok()
}

/// `CipherState::encrypt_vec` of a state with the given key and counter. The result is the
/// plaintext's length and a tag of 16 bytes, and opens to the plaintext under the same key and
/// counter. At the last counter value the call panics.
#[verifier::external_body]
pub(crate) fn noise_seal(key: &[u8; 32], n: u64, plaintext: &[u8]) -> (r: Vec<u8>)
    requires
        n < u64::MAX,
        plaintext@.len() <= 0xffff,
    ensures
        r@ == noise_sealed(key@, n, plaintext@),
        r@.len() == plaintext@.len() + 16,
        noise_opened(key@, n, r@) == Some(plaintext@),
{
    CipherState::<ChaCha20Poly1305>::new(key, n).encrypt_vec(plaintext)
}

/// `CipherState::decrypt_vec` of a state with the given key and counter. At the last counter value
/// a right tag makes the call panic.
#[verifier::external_body]
pub(crate) fn noise_open(key: &[u8; 32], n: u64, sealed: &[u8]) -> (r: Option<Vec<u8>>)
    requires
        n < u64::MAX,
    ensures
        match r {
            Some(p) => noise_opened(key@, n, sealed@) == Some(p@),
            None => noise_opened(key@, n, sealed@) is None,
        },
        r matches Some(p) ==> p@.len() + 16 == sealed@.len() && noise_sealed(key@, n, p@) == sealed@,
{
    CipherState::<ChaCha20Poly1305>::new(key, n).decrypt_vec(sealed).ok()
}

/// `X25519::genkey`. Nothing is said of which key comes. A system without random bytes to give makes
/// it panic.
#[verifier::external_body]
pub(crate) fn x25519_generate() -> [u8; 32] {
    *X25519::genkey()
}

/// `X25519::pubkey`.
#[verifier::external_body]
pub(crate) fn x25519_public_key(secret: &[u8; 32]) -> (r: [u8; 32])
    ensures
        r@ == x25519_public(secret@),
{
    X25519::pubkey(&U8Array::from_slice(secret))
}

/// The lengths of passphrase and salt that Argon2 accepts.
pub open spec fn argon2_accepts(passphrase: Seq<u8>, salt: Seq<u8>) -> bool {
    8 <= salt.len() <= 0xffff_ffff && passphrase.len() <= 0xffff_ffff
}

/// `Argon2::hash_password_into`, with the default parameters, into 32 bytes. It fails on salts
/// shorter than 8 bytes, and on salts and passphrases longer than 32 bits can count.
#[verifier::external_body]
pub(crate) fn argon2_hash(passphrase: &[u8], salt: &[u8]) -> (r: Option<[u8; 32]>)
    ensures
        match r {
            Some(k) => k@ == argon2id(passphrase@, salt@) && argon2_accepts(passphrase@, salt@),
            None => !argon2_accepts(passphrase@, salt@),
        },
{
    let mut out = [0u8; 32];
    Argon2::default().hash_password_into(passphrase, salt, &mut out).ok()?;
    Some(out)
}

/// `Zeroize::zeroize` on an array of bytes.
#[verifier::external_body]
pub(crate) fn zeroize_bytes(b: &mut [u8; 32])
    ensures
        final(b)@ == Seq::new(32, |i: int| 0u8),
    opens_invariants none
    no_unwind
{
    b.zeroize();
}

/// `HandshakeState::write_message_vec` of an initiator: the first message of `IKpsk2`, with an
/// empty payload. Writing never fails here, as X25519 never does. A responder whose public key is
/// `rs` reads in it the initiator's public key.
#[verifier::external_body]
pub(crate) fn initiator_first(prologue: &[u8], s: &[u8; 32], rs: &[u8; 32], e: &[u8; 32]) -> (r: Option<Vec<u8>>)
    ensures
        match r {
            Some(m) => m@ == noise_first_message(prologue@, s@, rs@, e@) && m@.len() == 96 && (
            forall|sr: Seq<u8>|
                x25519_public(sr) == rs@ && sr.len() == 32 ==> #[trigger] noise_initiator_of(
                    prologue@,
                    sr,
                    m@,
                ) == Some(x25519_public(s@))),
            None => false,
        },
{
    let mut builder: HandshakeStateBuilder<'_, X25519> = HandshakeStateBuilder::new();
    builder.set_pattern(noise_ik_psk2()).set_is_initiator(true).set_prologue(prologue);
    builder.set_s(U8Array::from_slice(s)).set_e(U8Array::from_slice(e)).set_rs(*rs);
    let mut state: HandshakeState<X25519, ChaCha20Poly1305, Blake2s> = builder.build_handshake_state();
    state.write_message_vec(&[]).ok()
}

/// `HandshakeState::read_message_vec` of a responder on the first message of `IKpsk2`, then
/// `get_rs`: the initiator's public key.
#[verifier::external_body]
pub(crate) fn responder_first(prologue: &[u8], s: &[u8; 32], first: &[u8]) -> (r: Option<[u8; 32]>)
    ensures
        match r {
            Some(k) => noise_initiator_of(prologue@, s@, first@) == Some(k@),
            None => noise_initiator_of(prologue@, s@, first@) is None,
        },
{
    let mut builder: HandshakeStateBuilder<'_, X25519> = HandshakeStateBuilder::new();
    builder.set_pattern(noise_ik_psk2()).set_is_initiator(false).set_prologue(prologue);
    builder.set_s(U8Array::from_slice(s));
    let mut state: HandshakeState<X25519, ChaCha20Poly1305, Blake2s> = builder.build_handshake_state();
    state.read_message_vec(first).ok()?;
    state.get_rs()
}

/// `HandshakeState::read_message_vec` of a responder on the first message of `IKpsk2`, then
/// `write_message_vec` with an empty payload, then `get_ciphers`: the second message and the two
/// transport keys. It succeeds on every authentic first message; an initiator that sent that first
/// message to this responder under the same pre-shared key derives the same two keys.
#[verifier::external_body]
pub(crate) fn responder_second(prologue: &[u8], s: &[u8; 32], psk: &[u8; 32], e: &[u8; 32], first: &[u8]) -> (r: Option<(Vec<u8>, [u8; 32], [u8; 32])>)
    ensures
        match r {
            Some((m, a, b)) => noise_second_message(prologue@, s@, psk@, e@, first@) == Some(
                (m@, a@, b@),
            ) && m@.len() == 48 && noise_initiator_of(prologue@, s@, first@) is Some,
            None => noise_second_message(prologue@, s@, psk@, e@, first@) is None
                && noise_initiator_of(prologue@, s@, first@) is None,
        },
        r matches Some((m, a, b)) ==> forall|si: Seq<u8>, rs: Seq<u8>, ei: Seq<u8>|
            #![trigger noise_finished(prologue@, si, rs, psk@, ei, m@)]
            rs == x25519_public(s@) && si.len() == 32 && ei.len() == 32 && noise_first_message(
                prologue@,
                si,
                rs,
                ei,
            ) == first@ ==> noise_finished(prologue@, si, rs, psk@, ei, m@) == Some((a@, b@)),
{
    let mut builder: HandshakeStateBuilder<'_, X25519> = HandshakeStateBuilder::new();
    builder.set_pattern(noise_ik_psk2()).set_is_initiator(false).set_prologue(prologue);
    builder.set_s(U8Array::from_slice(s)).set_e(U8Array::from_slice(e));
    let mut state: HandshakeState<X25519, ChaCha20Poly1305, Blake2s> = builder.build_handshake_state();
    state.push_psk(psk);
    state.read_message_vec(first).ok()?;
    let second = state.write_message_vec(&[]).ok()?;
    let (to_responder, to_initiator) = state.get_ciphers();
    Some((second, *to_responder.extract().0, *to_initiator.extract().0))
}

/// `HandshakeState::read_message_vec` of an initiator on the second message of `IKpsk2`, after it
/// wrote the first, then `get_ciphers`: the two transport keys.
#[verifier::external_body]
pub(crate) fn initiator_second(prologue: &[u8], s: &[u8; 32], rs: &[u8; 32], psk: &[u8; 32], e: &[u8; 32], second: &[u8]) -> (r: Option<([u8; 32], [u8; 32])>)
    ensures
        match r {
            Some((a, b)) => noise_finished(prologue@, s@, rs@, psk@, e@, second@) == Some((a@, b@)),
            None => noise_finished(prologue@, s@, rs@, psk@, e@, second@) is None,
        },
{
    let mut builder: HandshakeStateBuilder<'_, X25519> = HandshakeStateBuilder::new();
    builder.set_pattern(noise_ik_psk2()).set_is_initiator(true).set_prologue(prologue);
    builder.set_s(U8Array::from_slice(s)).set_e(U8Array::from_slice(e)).set_rs(*rs);
    let mut state: HandshakeState<X25519, ChaCha20Poly1305, Blake2s> = builder.build_handshake_state();
    state.push_psk(psk);
    state.write_message_vec(&[]).ok()?;
    state.read_message_vec(second).ok()?;
    let (to_responder, to_initiator) = state.get_ciphers();
    Some((*to_responder.extract().0, *to_initiator.extract().0))
}

} // verus!
