use hyperion_vpn::tunnel::client::{
    backoff_jitter, connect_timed_out, drawn_jitter, forward_outcome, jitter, live_slots, pool_size, slot_index,
    Backoff, ConnectRetry, PoolSearch, RetryAction, SearchAction, Supervisor, SupervisorAction,
    SupervisorEvent, TunnelParams, BACKOFF_MAX_MS, DEFAULT_FWMARK, OPEN_GRACE_ATTEMPTS,
};
use hyperion_vpn::tunnel::error::Error;
use hyperion_vpn::tunnel::keys::{Keypair, SecretKey};
use hyperion_vpn::tunnel::mux::{MuxAction, MuxDriver, MuxEvent, MAX_STREAMS, SPLIT_SEND_SIZE};
use hyperion_vpn::tunnel::protocol::{ConnectRequest, ConnectResponse};
use hyperion_vpn::tunnel::psk::Psk;
use hyperion_vpn::tunnel::server::{dial_response, Egress, ServerConfig, StreamAction};

#[test]
fn egress_matching() {
    let e = Egress::new(&[22, 5432]);
    assert!(e.permits(22));
    assert!(!e.permits(23));
    assert!(e.permits(5432));
    assert!(!Egress::deny_all().permits(22));
}

fn server(egress: Egress) -> ServerConfig {
    let admin = Keypair::generate();
    ServerConfig {
        static_secret: Keypair::generate().secret,
        psk: Psk::from_bytes([8u8; 32]),
        allowed_admins: vec![admin.public],
        egress,
        handshake_timeout_ms: 5000,
    }
}

#[test]
fn unlisted_target_is_denied() {
    let action = server(Egress::deny_all()).on_request(ConnectRequest { port: 22 });
    assert_eq!(action, StreamAction::Reply(ConnectResponse::Denied));
    assert!(!Egress::default().permits(22));
}

#[test]
fn listed_targets_are_dialled_and_answered() {
    let s = server(Egress::new(&[22]));
    assert_eq!(
        s.on_request(ConnectRequest { port: 22 }),
        StreamAction::Dial(22)
    );
    assert_eq!(dial_response(true), ConnectResponse::Connected);
    assert_eq!(dial_response(false), ConnectResponse::Unreachable);
    assert_eq!(s.handshake().allowed_admins.len(), 1);
}

#[test]
fn connect_request_roundtrips() {
    let req = ConnectRequest { port: 22 };
    let buf = req.encode();
    assert_eq!(buf, [0, 22]);
    assert_eq!(ConnectRequest::decode(buf), req);
    assert_eq!(
        ConnectRequest::decode([0x20, 0xfb]),
        ConnectRequest { port: 8443 }
    );
}

#[test]
fn read_connect_request_never_panics_or_hangs() {
    let mut buf = [0u8; 96];
    for _ in 0..2000 {
        getrandom::fill(&mut buf).unwrap();
        let len = buf[0] as usize % buf.len();
        if let Some(head) = buf[..len].first_chunk::<2>() {
            let req = ConnectRequest::decode(*head);
            assert_eq!(req.port, u16::from_be_bytes(*head));
        }
    }
}

#[test]
fn connect_responses_roundtrip() {
    for r in [
        ConnectResponse::Connected,
        ConnectResponse::Denied,
        ConnectResponse::Unreachable,
    ] {
        assert_eq!(ConnectResponse::from_code(r.code()).unwrap(), r);
    }
    assert_eq!(ConnectResponse::Unreachable.code(), 2);
    assert_eq!(
        ConnectResponse::from_code(3).unwrap_err().message(),
        "protocol violation: invalid connect response code"
    );
}

#[test]
fn forwards_report_what_the_server_answered() {
    assert!(forward_outcome(ConnectResponse::Connected, 22).is_ok());
    assert!(matches!(
        forward_outcome(ConnectResponse::Denied, 22),
        Err(Error::EgressDenied(m)) if m == "port 22"
    ));
    assert!(matches!(
        forward_outcome(ConnectResponse::Unreachable, 5432),
        Err(Error::Protocol(m)) if m == "port 5432 unreachable"
    ));
}

#[test]
fn retries_follow_a_knock() {
    let mut one = ConnectRetry::new(false);
    assert_eq!(one.failed(), RetryAction::GiveUp);
    let mut six = ConnectRetry::new(true);
    for _ in 0..5 {
        assert_eq!(six.failed(), RetryAction::Retry(150));
    }
    assert_eq!(six.failed(), RetryAction::GiveUp);
}

#[test]
fn backoff_doubles_up_to_its_limit() {
    let mut b = Backoff::new();
    let waits: Vec<u64> = (0..9).map(|_| b.wait(0)).collect();
    assert_eq!(
        waits,
        vec![250, 500, 1000, 2000, 4000, 8000, 15000, 15000, 15000]
    );
    assert_eq!(b.current_ms, BACKOFF_MAX_MS);
    b.connected();
    assert_eq!(b.wait(7), 257);
    assert_eq!(jitter(0xff, 0xff), 65535 % 500);
    assert_eq!(jitter(1, 2), 13);
    assert_eq!(drawn_jitter(Some(vec![1, 2])), 13);
    assert_eq!(drawn_jitter(None), 0);
    assert!(backoff_jitter() < 500);
}

#[test]
fn supervisor_rebuilds_a_tunnel_that_dropped() {
    let mut s = Supervisor::new();
    assert!(!s.live);
    assert_eq!(
        s.step(SupervisorEvent::DialFailed, 3),
        SupervisorAction::Wait(253)
    );
    assert_eq!(s.step(SupervisorEvent::Waited, 0), SupervisorAction::Dial);
    assert_eq!(
        s.step(SupervisorEvent::DialFailed, 0),
        SupervisorAction::Wait(500)
    );
    assert_eq!(s.step(SupervisorEvent::Waited, 0), SupervisorAction::Dial);
    assert_eq!(
        s.step(SupervisorEvent::Connected, 0),
        SupervisorAction::Drive
    );
    assert!(s.live);
    assert_eq!(
        s.step(SupervisorEvent::Dropped, 499),
        SupervisorAction::Wait(749)
    );
    assert!(!s.live);
    assert_eq!(s.step(SupervisorEvent::Waited, 0), SupervisorAction::Dial);
    assert_eq!(
        s.step(SupervisorEvent::DialFailed, 0),
        SupervisorAction::Wait(500)
    );
}

#[test]
fn egress_copies_permit_the_same_ports() {
    let e = Egress::new(&[22, 5432, 22]);
    let c = e.clone();
    for port in [21u16, 22, 23, 5431, 5432, 5433] {
        assert_eq!(c.permits(port), e.permits(port));
    }
    assert!(c.permits(5432));
}

#[test]
fn search_tries_every_slot_each_round() {
    let mut s = PoolSearch::new(3);
    let mut tries = 0;
    let mut sleeps = 0;
    loop {
        match s.next() {
            SearchAction::Try => tries += 1,
            SearchAction::Sleep(ms) => {
                assert_eq!(ms, 100);
                sleeps += 1;
            }
            SearchAction::GiveUp => break,
        }
    }
    assert_eq!(tries, 3 * OPEN_GRACE_ATTEMPTS);
    assert_eq!(sleeps, OPEN_GRACE_ATTEMPTS);
    assert_eq!(
        PoolSearch::exhausted().message(),
        "protocol violation: no live tunnel to server"
    );
    assert_eq!(
        connect_timed_out("203.0.113.1:8443").message(),
        "protocol violation: timed out connecting to 203.0.113.1:8443"
    );
}

#[test]
fn pools_have_at_least_one_slot() {
    assert_eq!(pool_size(0), 1);
    assert_eq!(pool_size(4), 4);
    assert_eq!(live_slots(&[]), 0);
    assert_eq!(live_slots(&[true, false, true]), 2);
    let seen: Vec<usize> = (7..10).map(|c| slot_index(c, 3)).collect();
    assert_eq!(seen, vec![1, 2, 0]);
    assert_eq!(DEFAULT_FWMARK, 0x6879);
}

#[test]
fn params_hand_over_their_keys() {
    let server = Keypair::generate();
    let p = TunnelParams {
        static_secret: SecretKey::from_bytes([1u8; 32]),
        server_pubkey: server.public,
        psk: Psk::from_bytes([2u8; 32]),
        knock: None,
        fwmark: Some(DEFAULT_FWMARK),
    };
    let h = p.handshake();
    assert_eq!(h.static_secret.as_bytes(), &[1u8; 32]);
    assert_eq!(h.server_pubkey, &server.public);
    assert_eq!(h.psk.as_bytes(), &[2u8; 32]);
}

#[test]
fn driver_takes_one_request_at_a_time() {
    let mut d = MuxDriver::client();
    assert_eq!(d.step(MuxEvent::Begin), MuxAction::PollInbound);
    assert_eq!(d.step(MuxEvent::InboundPending), MuxAction::PollRequests);
    assert_eq!(d.step(MuxEvent::Requested), MuxAction::PollOutbound);
    assert_eq!(d.step(MuxEvent::OutboundPending), MuxAction::PollInbound);
    assert_eq!(d.step(MuxEvent::InboundPending), MuxAction::Wait);
    assert_eq!(d.step(MuxEvent::Begin), MuxAction::PollOutbound);
    assert_eq!(d.step(MuxEvent::Answered), MuxAction::PollInbound);
    assert_eq!(d.step(MuxEvent::InboundPending), MuxAction::PollRequests);
    assert_eq!(d.step(MuxEvent::RequestsPending), MuxAction::PollInbound);
    assert_eq!(d.step(MuxEvent::InboundPending), MuxAction::PollRequests);
    assert_eq!(d.step(MuxEvent::RequestsClosed), MuxAction::Wait);
    assert_eq!(d.step(MuxEvent::Begin), MuxAction::PollInbound);
    assert_eq!(d.step(MuxEvent::Inbound), MuxAction::PollInbound);
    assert_eq!(d.step(MuxEvent::InboundClosed), MuxAction::Finish);
    let mut s = MuxDriver::server();
    assert_eq!(s.step(MuxEvent::Begin), MuxAction::PollInbound);
    assert_eq!(s.step(MuxEvent::InboundPending), MuxAction::Wait);
    assert_eq!(s.step(MuxEvent::InboundFailed), MuxAction::Fail);
    assert_eq!(MAX_STREAMS, 512);
    assert_eq!(SPLIT_SEND_SIZE, 16 * 1024);
}
