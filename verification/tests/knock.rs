use chacha20poly1305::aead::{Aead, KeyInit, Payload};
use hyperion_vpn::net::{IpAddr, Ipv4Addr, SocketAddr};
use hyperion_vpn::tunnel::client::{knock_datagram, send_knock, BeforeDial, KnockSettings, TunnelParams};
use hyperion_vpn::tunnel::error::Error;
use hyperion_vpn::tunnel::keys::{Keypair, SecretKey};
use hyperion_vpn::tunnel::knock::{
    now_unix, open, open_for, seal, seal_at, seal_drawn, seal_for, seal_for_at, seal_with_nonce,
    unix_time, ReplayGuard, DEFAULT_WINDOW_SECS, PACKET_LEN, REPLAY_CAP,
};
use hyperion_vpn::tunnel::psk::Psk;
use noise_rust_crypto::Blake2s;

fn violation(r: Result<hyperion_vpn::tunnel::knock::Knock, Error>) -> String {
    match r {
        Err(Error::Protocol(m)) => m,
        other => panic!("expected a violation, got {:?}", other),
    }
}

#[test]
fn roundtrip_opens() {
    let psk = Psk::from_bytes([5u8; 32]);
    let mut guard = ReplayGuard::new(DEFAULT_WINDOW_SECS);
    let pkt = seal_at(&psk, 8443, 1000).unwrap();
    let k = open(&psk, &pkt, 1005, &mut guard).unwrap();
    assert_eq!(k.tunnel_port, 8443);
    assert_eq!(pkt.len(), PACKET_LEN);
}

#[test]
fn wrong_psk_rejected() {
    let mut guard = ReplayGuard::new(DEFAULT_WINDOW_SECS);
    let pkt = seal_at(&Psk::from_bytes([1u8; 32]), 8443, 1000).unwrap();
    let err = open(&Psk::from_bytes([2u8; 32]), &pkt, 1000, &mut guard).unwrap_err();
    assert!(matches!(err, Error::Unauthorized));
}

#[test]
fn stale_timestamp_rejected() {
    let psk = Psk::from_bytes([5u8; 32]);
    let mut guard = ReplayGuard::new(30);
    let pkt = seal_at(&psk, 8443, 1000).unwrap();
    assert!(open(&psk, &pkt, 1031, &mut guard).is_err());
}

#[test]
fn replay_rejected() {
    let psk = Psk::from_bytes([5u8; 32]);
    let mut guard = ReplayGuard::new(DEFAULT_WINDOW_SECS);
    let pkt = seal_at(&psk, 8443, 1000).unwrap();
    assert!(open(&psk, &pkt, 1000, &mut guard).is_ok());
    assert!(open(&psk, &pkt, 1000, &mut guard).is_err());
}

#[test]
fn garbage_rejected() {
    let psk = Psk::from_bytes([5u8; 32]);
    let mut guard = ReplayGuard::new(DEFAULT_WINDOW_SECS);
    assert!(open(&psk, &[0u8; PACKET_LEN], 1000, &mut guard).is_err());
    assert!(open(&psk, b"short", 1000, &mut guard).is_err());
}

#[test]
fn open_never_panics_on_arbitrary_input() {
    let psk = Psk::from_bytes([5u8; 32]);
    let mut guard = ReplayGuard::new(DEFAULT_WINDOW_SECS);
    let mut buf = [0u8; 80];
    for _ in 0..5000 {
        getrandom::fill(&mut buf).unwrap();
        let len = buf[0] as usize % buf.len();
        let _ = open(&psk, &buf[..len], 1000, &mut guard);
    }
}

#[test]
fn each_refusal_has_its_text() {
    let psk = Psk::from_bytes([5u8; 32]);
    let mut guard = ReplayGuard::new(30);
    assert_eq!(
        violation(open(&psk, b"short", 1000, &mut guard)),
        "knock: bad length"
    );
    assert_eq!(
        violation(open(&psk, &[0u8; PACKET_LEN], 1000, &mut guard)),
        "knock: bad magic"
    );
    let pkt = seal_with_nonce(&psk, None, 8443, 1000, [3u8; 12]);
    assert_eq!(
        violation(open(&psk, &pkt, 969, &mut guard)),
        "knock: stale timestamp"
    );
    assert_eq!(
        violation(open(&psk, &pkt, 1031, &mut guard)),
        "knock: stale timestamp"
    );
    assert_eq!(guard.remembered(), 0);
    assert!(open(&psk, &pkt, 1030, &mut guard).is_ok());
    assert_eq!(guard.remembered(), 1);
    assert_eq!(
        violation(open(&psk, &pkt, 1030, &mut guard)),
        "knock: replay"
    );
    let mut forged = seal_with_nonce(&psk, None, 8443, 1030, [4u8; 12]);
    forged[20] ^= 1;
    assert!(matches!(
        open(&psk, &forged, 1030, &mut guard),
        Err(Error::Unauthorized)
    ));
}

fn knock_key(psk: &[u8]) -> Vec<u8> {
    let (k1, _) = <Blake2s as noise_protocol::Hash>::hkdf(b"hyperion-vpn knock key v1", psk);
    k1.to_vec()
}

fn sealed_by_hand(psk: &[u8], aad: &[u8], payload: &[u8], nonce: [u8; 12]) -> Vec<u8> {
    let cipher = chacha20poly1305::ChaCha20Poly1305::new_from_slice(&knock_key(psk)).unwrap();
    let ct = cipher
        .encrypt(
            chacha20poly1305::Nonce::from_slice(&nonce),
            Payload { msg: payload, aad },
        )
        .unwrap();
    let mut out = b"HVPK".to_vec();
    out.extend_from_slice(&nonce);
    out.extend_from_slice(&ct);
    out
}

#[test]
fn packet_layout_is_fixed() {
    let psk = [9u8; 32];
    let mut payload = vec![0u8, 1];
    payload.extend_from_slice(&0x0102_0304_0506_0708u64.to_be_bytes());
    payload.extend_from_slice(&8443u16.to_be_bytes());
    let expected = sealed_by_hand(&psk, b"HVPK", &payload, [7u8; 12]);
    let got = seal_with_nonce(
        &Psk::from_bytes(psk),
        None,
        8443,
        0x0102_0304_0506_0708,
        [7u8; 12],
    );
    assert_eq!(got, expected);
}

#[test]
fn drawn_bytes_decide_whether_there_is_a_knock() {
    let psk = Psk::from_bytes([5u8; 32]);
    let server = Keypair::generate().public;
    let nonce = [3u8; 12];
    assert_eq!(
        seal_drawn(&psk, Some(&server), 8443, 1000, Some(nonce.to_vec())),
        Some(seal_with_nonce(&psk, Some(&server), 8443, 1000, nonce))
    );
    assert_eq!(seal_drawn(&psk, Some(&server), 8443, 1000, None), None);
    assert_eq!(unix_time(Some(1000)), 1000);
    assert_eq!(unix_time(None), 0);
    let target = SocketAddr::new(IpAddr::V4(Ipv4Addr::new(203, 0, 113, 10)), 8443);
    let d = knock_datagram(target, Some(vec![1, 2, 3])).unwrap();
    assert_eq!(d.target, target);
    assert_eq!(d.bind, SocketAddr::new(IpAddr::V4(Ipv4Addr::new(0, 0, 0, 0)), 0));
    assert_eq!(d.packet, vec![1, 2, 3]);
    assert!(knock_datagram(target, None).is_none());
}

#[test]
fn other_versions_are_refused() {
    let psk = [9u8; 32];
    let mut payload = vec![0u8, 2];
    payload.extend_from_slice(&1000u64.to_be_bytes());
    payload.extend_from_slice(&8443u16.to_be_bytes());
    let pkt = sealed_by_hand(&psk, b"HVPK", &payload, [7u8; 12]);
    let mut guard = ReplayGuard::new(30);
    assert_eq!(
        violation(open(&Psk::from_bytes(psk), &pkt, 1000, &mut guard)),
        "knock: version mismatch"
    );
}

#[test]
fn bound_knock_opens_only_at_its_server() {
    let psk = Psk::from_bytes([5u8; 32]);
    let a = Keypair::generate().public;
    let b = Keypair::generate().public;
    let pkt = seal_for_at(&psk, &a, 8443, 1000).unwrap();
    let mut guard = ReplayGuard::new(30);
    assert!(matches!(
        open_for(&psk, &b, &pkt, 1000, &mut guard),
        Err(Error::Unauthorized)
    ));
    assert!(matches!(
        open(&psk, &pkt, 1000, &mut guard),
        Err(Error::Unauthorized)
    ));
    assert_eq!(
        open_for(&psk, &a, &pkt, 1000, &mut guard)
            .unwrap()
            .tunnel_port,
        8443
    );
}

#[test]
fn current_time_knocks_open_now() {
    let psk = Psk::from_bytes([5u8; 32]);
    let server = Keypair::generate().public;
    let mut guard = ReplayGuard::new(30);
    let pkt = seal(&psk, 22).unwrap();
    assert_eq!(
        open(&psk, &pkt, now_unix(), &mut guard).unwrap().tunnel_port,
        22
    );
    let bound = seal_for(&psk, &server, 23).unwrap();
    assert_eq!(
        open_for(&psk, &server, &bound, now_unix(), &mut guard)
            .unwrap()
            .tunnel_port,
        23
    );
    assert!(now_unix() > 1_600_000_000);
}

#[test]
fn nonces_are_forgotten_after_the_window() {
    let mut guard = ReplayGuard::new(30);
    assert_eq!(guard.window(), 30);
    assert!(guard.check_and_record([1u8; 12], 1000));
    assert!(!guard.check_and_record([1u8; 12], 1030));
    assert!(!guard.check_and_record([1u8; 12], 900));
    assert!(guard.check_and_record([1u8; 12], 1031));
    assert_eq!(guard.remembered(), 1);
}

#[test]
fn knock_opens_once_whatever_comes_between() {
    let psk = Psk::from_bytes([5u8; 32]);
    let mut guard = ReplayGuard::new(30);
    let pkt = seal_at(&psk, 8443, 1000).unwrap();
    assert!(open(&psk, &pkt, 1000, &mut guard).is_ok());
    for t in 1001..1030 {
        let other = seal_at(&psk, 8443, t).unwrap();
        assert!(open(&psk, &other, t, &mut guard).is_ok());
    }
    assert_eq!(violation(open(&psk, &pkt, 1030, &mut guard)), "knock: replay");
    assert_eq!(
        violation(open(&psk, &pkt, 1031, &mut guard)),
        "knock: stale timestamp"
    );
}

#[test]
fn knock_from_a_fast_clock_opens_once() {
    let psk = Psk::from_bytes([5u8; 32]);
    let mut guard = ReplayGuard::new(30);
    let pkt = seal_at(&psk, 8443, 1030).unwrap();
    assert!(open(&psk, &pkt, 1000, &mut guard).is_ok());
    for now in [1000, 1030, 1031, 1060] {
        assert_eq!(violation(open(&psk, &pkt, now, &mut guard)), "knock: replay");
    }
    assert_eq!(
        violation(open(&psk, &pkt, 1061, &mut guard)),
        "knock: stale timestamp"
    );
}

#[test]
fn full_memory_stops_growing() {
    let mut guard = ReplayGuard::new(30);
    for i in 0..(REPLAY_CAP as u32 + 10) {
        let mut nonce = [0u8; 12];
        nonce[..4].copy_from_slice(&i.to_be_bytes());
        assert!(guard.check_and_record(nonce, 1000));
    }
    assert_eq!(guard.remembered(), REPLAY_CAP);
    let mut last = [0u8; 12];
    last[..4].copy_from_slice(&(REPLAY_CAP as u32 + 9).to_be_bytes());
    assert!(guard.check_and_record(last, 1000));
}

#[test]
fn knock_datagram_goes_to_its_target() {
    let psk = Psk::from_bytes([6u8; 32]);
    let target = SocketAddr::new(IpAddr::V4(Ipv4Addr::new(203, 0, 113, 10)), 8443);
    let d = send_knock(target, &psk, 8443).unwrap();
    assert_eq!(d.target, target);
    assert_eq!(
        d.bind,
        SocketAddr::new(IpAddr::V4(Ipv4Addr::new(0, 0, 0, 0)), 0)
    );
    let mut guard = ReplayGuard::new(DEFAULT_WINDOW_SECS);
    let k = open(&psk, &d.packet, now_unix(), &mut guard).unwrap();
    assert_eq!(k.tunnel_port, 8443);

    let v6 = SocketAddr::new(IpAddr::V6(1), 9);
    assert_eq!(
        send_knock(v6, &psk, 1).unwrap().bind,
        SocketAddr::new(IpAddr::V6(0), 0)
    );
}

#[test]
fn dialling_knocks_at_the_knock_port_for_the_tunnel_port() {
    let server = Keypair::generate();
    let mut params = TunnelParams {
        static_secret: SecretKey::from_bytes([1u8; 32]),
        server_pubkey: server.public,
        psk: Psk::from_bytes([6u8; 32]),
        knock: Some(KnockSettings { port: 4000 }),
        fwmark: None,
    };
    let addr = SocketAddr::new(IpAddr::V4(Ipv4Addr::new(203, 0, 113, 10)), 8443);
    match params.before_dial(addr) {
        BeforeDial::Knock(d) => {
            assert_eq!(d.target, SocketAddr::new(addr.ip(), 4000));
            let mut guard = ReplayGuard::new(DEFAULT_WINDOW_SECS);
            let k =
                open_for(&params.psk, &server.public, &d.packet, now_unix(), &mut guard).unwrap();
            assert_eq!(k.tunnel_port, 8443);
        }
        _ => panic!("expected a knock"),
    }
    match params.before_dial_with(addr, Some(vec![1, 2, 3])) {
        BeforeDial::Knock(d) => {
            assert_eq!(d.target, SocketAddr::new(addr.ip(), 4000));
            assert_eq!(d.packet, vec![1, 2, 3]);
        }
        _ => panic!("expected a knock"),
    }
    assert!(matches!(
        params.before_dial_with(addr, None),
        BeforeDial::NoRandomness
    ));
    params.knock = None;
    assert!(matches!(params.before_dial(addr), BeforeDial::Nothing));
    assert!(matches!(
        params.before_dial_with(addr, Some(vec![1])),
        BeforeDial::Nothing
    ));
}
