use hyperion_vpn::tunnel::error::Error;
use hyperion_vpn::tunnel::handshake::{
    frame_handshake_msg, handshake_msg_len, ClientHandshake, ServerHandshake,
};
use hyperion_vpn::tunnel::keys::{Keypair, PublicKey, SecretKey};
use hyperion_vpn::tunnel::noise::{
    EndOfInput, NoiseStream, ReadAction, ReadFailure, LEN_PREFIX, MAX_PLAINTEXT,
};
use hyperion_vpn::tunnel::psk::Psk;
use noise_protocol::CipherState;
use noise_rust_crypto::ChaCha20Poly1305;

fn write_all(t: &mut NoiseStream, data: &[u8]) -> Vec<u8> {
    let mut wire = Vec::new();
    let mut off = 0;
    while off < data.len() {
        let n = t.write(&data[off..]);
        off += n;
        while !t.pending().is_empty() {
            let step = t.pending().len().min(1000);
            wire.extend_from_slice(&t.pending()[..step]);
            t.wrote(step).unwrap();
        }
    }
    wire
}

fn read_all(t: &mut NoiseStream, wire: &[u8], piece: usize) -> Vec<u8> {
    let mut out = Vec::new();
    let mut off = 0;
    loop {
        match t.read(700) {
            ReadAction::Deliver(d) => out.extend_from_slice(&d),
            ReadAction::Fill => {
                if off == wire.len() {
                    return out;
                }
                let end = (off + piece).min(wire.len());
                t.filled(&wire[off..end]);
                off = end;
            }
            ReadAction::Fail(f) => panic!("{}", f.message()),
        }
    }
}

#[test]
fn transport_roundtrip_small_and_multiframe() {
    let key = [7u8; 32];
    let mut alice = NoiseStream::new(key, key);
    let mut bob = NoiseStream::new(key, key);
    let big = vec![0xABu8; MAX_PLAINTEXT * 3 + 123];
    let mut wire = write_all(&mut alice, b"hi");
    wire.extend_from_slice(&write_all(&mut alice, &big));
    let mut expected = b"hi".to_vec();
    expected.extend_from_slice(&big);
    assert_eq!(read_all(&mut bob, &wire, 333), expected);
    assert_eq!(bob.ended(), EndOfInput::Clean);
}

#[test]
fn transport_rejects_tampered_frame() {
    let key = [9u8; 32];
    let mut enc = CipherState::<ChaCha20Poly1305>::new(&key, 0);
    let ct = enc.encrypt_vec(b"secret");
    let mut frame = (ct.len() as u16).to_be_bytes().to_vec();
    frame.extend_from_slice(&ct);
    frame[LEN_PREFIX + 3] ^= 0xff;
    let mut stream = NoiseStream::new(key, key);
    stream.filled(&frame);
    match stream.read(6) {
        ReadAction::Fail(f) => {
            assert_eq!(f, ReadFailure::DecryptionFailed);
            assert_eq!(f.message(), "decryption failed");
        }
        _ => panic!("expected a failure"),
    }
}

#[test]
fn frames_are_what_the_cipher_state_gives() {
    let key = [9u8; 32];
    let mut enc = CipherState::<ChaCha20Poly1305>::new(&key, 0);
    let mut t = NoiseStream::new(key, [0u8; 32]);
    assert!(t.can_write());
    for chunk in [&b"one"[..], &b"two"[..]] {
        let ct = enc.encrypt_vec(chunk);
        let mut frame = (ct.len() as u16).to_be_bytes().to_vec();
        frame.extend_from_slice(&ct);
        assert_eq!(t.write(chunk), 3);
        assert_eq!(t.pending(), &frame[..]);
        assert_eq!(t.wrote(0), None);
        assert_eq!(t.wrote(1), Some(false));
        assert_eq!(t.wrote(frame.len() - 1), Some(true));
        assert!(t.pending().is_empty());
    }
    assert_eq!(t.write(&[]), 0);
    assert_eq!(t.write(&vec![1u8; MAX_PLAINTEXT + 1]), MAX_PLAINTEXT);
}

#[test]
fn lengths_out_of_range_are_refused() {
    for len in [0u16, 15, 16401, 65535] {
        let mut t = NoiseStream::new([1u8; 32], [1u8; 32]);
        t.filled(&len.to_be_bytes());
        match t.read(1) {
            ReadAction::Fail(f) => {
                assert_eq!(f, ReadFailure::InvalidFrameLength);
                assert_eq!(f.message(), "invalid frame length");
            }
            _ => panic!("expected a failure"),
        }
    }
}

#[test]
fn end_inside_a_frame_is_unexpected() {
    let mut t = NoiseStream::new([1u8; 32], [1u8; 32]);
    assert!(t.can_read());
    t.filled(&[0]);
    assert!(matches!(t.read(1), ReadAction::Fill));
    assert_eq!(t.ended(), EndOfInput::Clean);
    t.filled(&[16, 1, 2, 3]);
    assert!(matches!(t.read(1), ReadAction::Fill));
    assert_eq!(t.ended(), EndOfInput::UnexpectedEof);
}

#[test]
fn failed_reader_stays_failed() {
    let key = [9u8; 32];
    let mut sender = NoiseStream::new(key, key);
    let mut wire = write_all(&mut sender, b"first");
    wire[4] ^= 1;
    let rest = write_all(&mut sender, b"second");
    let mut t = NoiseStream::new(key, key);
    t.filled(&wire);
    assert!(matches!(
        t.read(9),
        ReadAction::Fail(ReadFailure::DecryptionFailed)
    ));
    t.filled(&rest);
    for _ in 0..3 {
        assert!(matches!(
            t.read(9),
            ReadAction::Fail(ReadFailure::DecryptionFailed)
        ));
    }
}

fn pair(
    server: &ServerHandshake<'_>,
    client: &ClientHandshake<'_>,
) -> (Result<PublicKey, Error>, Result<(), Error>) {
    let (started, first) = client.start().unwrap();
    assert_eq!(
        handshake_msg_len([first[0], first[1]]).unwrap(),
        first.len() - 2
    );
    let accepted = match server.accept(&first[2..]) {
        Ok(a) => a,
        Err(e) => return (Err(e), Err(Error::Handshake)),
    };
    let mut s = accepted.stream;
    let mut c = match started.finish(&accepted.reply[2..]) {
        Ok(c) => c,
        Err(e) => return (Ok(accepted.admin), Err(e)),
    };
    let wire = write_all(&mut c, b"ping");
    let got = read_all(&mut s, &wire, 5);
    assert_eq!(got, b"ping");
    let back = write_all(&mut s, &got);
    assert_eq!(read_all(&mut c, &back, 5), b"ping");
    (Ok(accepted.admin), Ok(()))
}

#[test]
fn handshake_success_and_echo() {
    let admin = Keypair::generate();
    let server = Keypair::generate();
    let psk = Psk::from_bytes([3u8; 32]);
    let allowed = [admin.public];
    let (s, c) = pair(
        &ServerHandshake {
            static_secret: &server.secret,
            psk: &psk,
            allowed_admins: &allowed,
        },
        &ClientHandshake {
            static_secret: &admin.secret,
            server_pubkey: &server.public,
            psk: &psk,
        },
    );
    assert_eq!(s.unwrap(), admin.public);
    assert!(c.is_ok());
}

#[test]
fn handshake_wrong_psk_fails() {
    let admin = Keypair::generate();
    let server = Keypair::generate();
    let allowed = [admin.public];
    let (s, c) = pair(
        &ServerHandshake {
            static_secret: &server.secret,
            psk: &Psk::from_bytes([1u8; 32]),
            allowed_admins: &allowed,
        },
        &ClientHandshake {
            static_secret: &admin.secret,
            server_pubkey: &server.public,
            psk: &Psk::from_bytes([2u8; 32]),
        },
    );
    assert!(s.is_err() || c.is_err());
    assert!(matches!(c, Err(Error::Handshake)));
}

#[test]
fn handshake_unauthorized_admin_fails() {
    let admin = Keypair::generate();
    let other = Keypair::generate();
    let server = Keypair::generate();
    let psk = Psk::from_bytes([5u8; 32]);
    let allowed = [other.public];
    let (s, c) = pair(
        &ServerHandshake {
            static_secret: &server.secret,
            psk: &psk,
            allowed_admins: &allowed,
        },
        &ClientHandshake {
            static_secret: &admin.secret,
            server_pubkey: &server.public,
            psk: &psk,
        },
    );
    assert!(matches!(s, Err(Error::Unauthorized)));
    assert!(c.is_err());
}

#[test]
fn handshake_with_another_server_fails() {
    let admin = Keypair::generate();
    let server = Keypair::generate();
    let psk = Psk::from_bytes([5u8; 32]);
    let allowed = [admin.public];
    let (s, _) = pair(
        &ServerHandshake {
            static_secret: &server.secret,
            psk: &psk,
            allowed_admins: &allowed,
        },
        &ClientHandshake {
            static_secret: &admin.secret,
            server_pubkey: &Keypair::generate().public,
            psk: &psk,
        },
    );
    assert!(matches!(s, Err(Error::Handshake)));
}

#[test]
fn given_ephemerals_give_the_same_messages() {
    let admin = SecretKey::from_bytes([1u8; 32]);
    let server = SecretKey::from_bytes([2u8; 32]);
    let psk = Psk::from_bytes([3u8; 32]);
    let server_pubkey = server.public_key();
    let allowed = [admin.public_key()];
    let client = ClientHandshake {
        static_secret: &admin,
        server_pubkey: &server_pubkey,
        psk: &psk,
    };
    let responder = ServerHandshake {
        static_secret: &server,
        psk: &psk,
        allowed_admins: &allowed,
    };
    let (_, m1) = client.start_with(SecretKey::from_bytes([4u8; 32])).unwrap();
    let (started, m2) = client.start_with(SecretKey::from_bytes([4u8; 32])).unwrap();
    assert_eq!(m1, m2);
    assert_eq!(m1.len(), 98);
    let e = SecretKey::from_bytes([5u8; 32]);
    let a = responder.accept_with(&m1[2..], &e).unwrap();
    let b = responder.accept_with(&m1[2..], &e).unwrap();
    assert_eq!(a.reply, b.reply);
    assert_eq!(a.reply.len(), 50);
    assert!(started.finish(&a.reply[2..]).is_ok());
    assert!(matches!(started.finish(b"short"), Err(Error::Handshake)));
}

#[test]
fn handshake_framing_has_limits() {
    assert_eq!(frame_handshake_msg(b"abc").unwrap(), b"\x00\x03abc");
    assert!(frame_handshake_msg(&vec![0u8; 4096]).is_ok());
    assert_eq!(
        frame_handshake_msg(&vec![0u8; 4097]).unwrap_err().message(),
        "protocol violation: handshake message too large"
    );
    assert_eq!(handshake_msg_len([0x10, 0x00]).unwrap(), 4096);
    assert_eq!(
        handshake_msg_len([0x10, 0x01]).unwrap_err().message(),
        "protocol violation: invalid handshake length"
    );
    assert!(handshake_msg_len([0, 0]).is_err());
}
