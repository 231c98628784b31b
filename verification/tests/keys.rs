use hyperion_vpn::tunnel::error::Error;
use hyperion_vpn::tunnel::keys::{Keypair, PublicKey, SecretKey, KEY_LEN};
use hyperion_vpn::tunnel::psk::{Psk, MIN_SALT_LEN, PSK_LEN};
use noise_protocol::{U8Array, DH};

#[test]
fn passphrase_is_deterministic_and_salt_sensitive() {
    let a = Psk::from_passphrase(b"correct horse battery", b"saltsalt").unwrap();
    let b = Psk::from_passphrase(b"correct horse battery", b"saltsalt").unwrap();
    let c = Psk::from_passphrase(b"correct horse battery", b"different-salt").unwrap();
    assert_eq!(a.as_bytes(), b.as_bytes());
    assert_ne!(a.as_bytes(), c.as_bytes());
}

#[test]
fn passphrase_rejects_short_salt() {
    assert!(Psk::from_passphrase(b"pw", b"short").is_err());
    assert_eq!(
        Psk::from_passphrase(b"pw", b"seven77").err().unwrap().message(),
        "protocol violation: salt must be at least 8 bytes"
    );
    assert_eq!(MIN_SALT_LEN, 8);
    assert_eq!(PSK_LEN, 32);
}

#[test]
fn passphrase_is_stretched_with_argon2id() {
    let mut expected = [0u8; 32];
    argon2::Argon2::default()
        .hash_password_into(b"pw", b"saltsalt", &mut expected)
        .unwrap();
    let psk = Psk::from_passphrase(b"pw", b"saltsalt").unwrap();
    assert_eq!(psk.as_bytes(), &expected);
}

#[test]
fn base64_reads_back() {
    let mut b = [0u8; KEY_LEN];
    for (i, x) in b.iter_mut().enumerate() {
        *x = (i * 37 % 256) as u8;
    }
    let text = PublicKey::from_bytes(b).to_base64();
    assert_eq!(text, "ACVKb5S53gMoTXKXvOEGK1B1mr/kCS5TeJ3C5wwxVns=");
    assert_eq!(PublicKey::from_base64(&text).unwrap().to_bytes(), b);
    assert_eq!(SecretKey::from_base64(&text).unwrap().as_bytes(), &b);
    assert_eq!(SecretKey::from_bytes(b).to_base64(), text);
    let padded = format!(" \t{}\r\n", text);
    assert_eq!(PublicKey::from_base64(&padded).unwrap().as_bytes(), &b);
    assert_eq!(Psk::from_base64(&padded).unwrap().as_bytes(), &b);
}

fn text_of(e: Error) -> String {
    e.message()
}

#[test]
fn bad_keys_are_refused() {
    assert_eq!(
        text_of(PublicKey::from_base64("not base64!").err().unwrap()),
        "protocol violation: invalid base64 key"
    );
    assert_eq!(
        text_of(PublicKey::from_base64("AAAA").err().unwrap()),
        "protocol violation: key must be 32 bytes"
    );
    assert_eq!(
        text_of(SecretKey::from_base64("AAA").err().unwrap()),
        "protocol violation: invalid base64 key"
    );
    assert_eq!(
        text_of(Psk::from_base64("AAB=").err().unwrap()),
        "protocol violation: invalid base64 psk"
    );
    assert_eq!(
        text_of(Psk::from_base64("AAA=").err().unwrap()),
        "protocol violation: psk must be 32 bytes"
    );
    assert_eq!(
        text_of(Psk::from_base64("").err().unwrap()),
        "protocol violation: psk must be 32 bytes"
    );
}

#[test]
fn public_keys_are_x25519() {
    let secret = SecretKey::from_bytes([0x42u8; 32]);
    assert_eq!(
        secret.public_key().to_bytes(),
        noise_public(secret.as_bytes())
    );
    assert_ne!(&secret.public_key().to_bytes(), secret.as_bytes());
    let pair = Keypair::generate();
    assert!(pair.public.same(&pair.secret.public_key()));
    assert!(!pair.public.same(&Keypair::generate().public));
    assert_eq!(pair.secret.clone().as_bytes(), pair.secret.as_bytes());
}

fn noise_public(secret: &[u8; 32]) -> [u8; 32] {
    noise_rust_crypto::X25519::pubkey(&U8Array::from_slice(secret))
}

#[test]
fn error_texts() {
    assert_eq!(Error::Handshake.message(), "handshake failed");
    assert_eq!(
        Error::Unauthorized.message(),
        "peer is not an authorized admin"
    );
    assert_eq!(
        Error::EgressDenied("port 22".to_string()).message(),
        "destination not permitted: port 22"
    );
    assert_eq!(
        Error::Protocol("x".to_string()).message(),
        "protocol violation: x"
    );
}
