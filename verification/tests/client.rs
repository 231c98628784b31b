use hyperion_vpn::client::addresses::{
    assign_virtual_ip, parse_tun, resolve_virtual_ips, TunConfig,
};
use hyperion_vpn::client::config::{
    add_server, check_duplicate_locals, check_new_server, init_config, initial_config, load,
    make_salt, normalize_addr, parse_admin_key, parse_forward_spec, plan_default_key,
    remove_server, resolve_default_psk, server_ips, server_of, summarize, FileConfig,
    ForwardSection, KeyPlan, KeySection, KnockSection, ServerInput, ServerSection, TunSection,
};
use hyperion_vpn::client::daemon::{
    added_report, daemon_args, doctor_verdict, down, init_report, no_config, plan_forwards, plan_up,
    proc_needle, status_text, table, up_banner, CheckOutcome, ForwardError,
};
use hyperion_vpn::client::routes::{script, RouteParams};
use hyperion_vpn::client::tun::{managed_routes, on_stream, real_routes, TunAction, TunStream};
use hyperion_vpn::common::StopPlan;
use hyperion_vpn::failure::Failure;
use hyperion_vpn::net::{IpAddr, Ipv4Addr, SocketAddr};
use hyperion_vpn::tunnel::keys::{PublicKey, SecretKey};
use hyperion_vpn::tunnel::psk::Psk;
use std::collections::HashSet;

fn ip(s: &str) -> Ipv4Addr {
    Ipv4Addr::parse(s).unwrap()
}

fn addr(s: &str, port: u16) -> SocketAddr {
    SocketAddr::new(IpAddr::V4(ip(s)), port)
}

fn section(name: &str, vip: Option<&str>) -> ServerSection {
    ServerSection {
        name: name.to_string(),
        addr: "203.0.113.10:8443".to_string(),
        server_pubkey: PublicKey::from_bytes([7u8; 32]).to_base64(),
        virtual_ip: vip.map(|s| s.to_string()),
        key_env: None,
        key_value: None,
        pool_size: None,
    }
}

fn file(servers: Vec<ServerSection>) -> FileConfig {
    FileConfig {
        admin_static_key_file: "admin.key".to_string(),
        pool_size: None,
        key: None,
        knock: KnockSection::default(),
        tun: TunSection::default(),
        server: servers,
        forward: Vec::new(),
    }
}

fn causes(f: Failure) -> Vec<String> {
    f.causes
}

#[test]
fn forward_spec_round_trips() {
    let f = parse_forward_spec("2201:srvA:22").unwrap();
    assert_eq!(f.local.port(), 2201);
    assert_eq!(f.server, "srvA");
    assert_eq!(f.remote_port, 22);
    assert_eq!(f.local, addr("127.0.0.1", 2201));
}

#[test]
fn forward_spec_rejects_malformed() {
    assert!(parse_forward_spec("nope").is_err());
    assert!(parse_forward_spec("2201:srvA:127.0.0.1:22").is_err());
    assert_eq!(
        causes(parse_forward_spec("nope").err().unwrap()),
        vec!["-L expects local_port:server:remote_port"]
    );
    assert_eq!(
        causes(parse_forward_spec("x:srvA:22").err().unwrap()),
        vec!["invalid digit found in string", "bad local port in -L"]
    );
    assert_eq!(
        causes(parse_forward_spec("22:srvA:65536").err().unwrap()),
        vec![
            "number too large to fit in target type",
            "bad remote port in -L"
        ]
    );
}

#[test]
fn virtual_ip_assignment_is_sequential_and_skips_used() {
    let tun = TunConfig {
        addr: ip("10.99.0.1"),
        prefix: 24,
        mtu: 1420,
    };
    let mut used = HashSet::new();
    let a = assign_virtual_ip(&tun, &used).unwrap();
    assert_eq!(a, ip("10.99.0.10"));
    used.insert(a.bits);
    let b = assign_virtual_ip(&tun, &used).unwrap();
    assert_eq!(b, ip("10.99.0.11"));
}

#[test]
fn resolve_mixes_explicit_and_auto_ips() {
    let tun = TunConfig {
        addr: ip("10.99.0.1"),
        prefix: 24,
        mtu: 1420,
    };
    let mut servers = vec![section("a", Some("10.99.0.50")), section("b", None)];
    servers[1].addr = "203.0.113.11:8443".to_string();
    for s in servers.iter_mut() {
        s.server_pubkey = "x".to_string();
    }
    let vips = resolve_virtual_ips(&tun, &servers).unwrap();
    assert_eq!(vips[0], ip("10.99.0.50"));
    assert_eq!(vips[1], ip("10.99.0.10"));
}

#[test]
fn virtual_ips_never_collide() {
    let tun = TunConfig {
        addr: ip("10.99.0.11"),
        prefix: 28,
        mtu: 1420,
    };
    let servers = vec![
        section("a", None),
        section("b", Some("10.99.0.12")),
        section("c", None),
    ];
    let vips = resolve_virtual_ips(&tun, &servers).unwrap();
    assert_eq!(vips, vec![ip("10.99.0.10"), ip("10.99.0.12"), ip("10.99.0.13")]);
    let full = vec![
        section("a", None),
        section("b", None),
        section("c", None),
        section("d", None),
        section("e", None),
    ];
    assert_eq!(
        causes(resolve_virtual_ips(&tun, &full).err().unwrap()),
        vec!["no free virtual IP left in the tun subnet"]
    );
    let twice = vec![section("a", Some("10.0.0.1")), section("b", Some("10.0.0.1"))];
    assert_eq!(
        causes(resolve_virtual_ips(&tun, &twice).err().unwrap()),
        vec!["duplicate virtual_ip 10.0.0.1"]
    );
    let bad = vec![section("a", Some("10.0.0"))];
    assert_eq!(
        causes(resolve_virtual_ips(&tun, &bad).err().unwrap()),
        vec![
            "invalid IPv4 address syntax",
            "server a: invalid virtual_ip 10.0.0"
        ]
    );
    let wide = TunConfig {
        addr: ip("255.255.255.255"),
        prefix: 1,
        mtu: 1,
    };
    assert_eq!(
        assign_virtual_ip(&wide, &HashSet::new()).unwrap(),
        ip("128.0.0.10")
    );
    let single = TunConfig {
        addr: ip("10.0.0.1"),
        prefix: 32,
        mtu: 1,
    };
    assert!(assign_virtual_ip(&single, &HashSet::new()).is_none());
}

#[test]
fn tun_section_is_checked() {
    let t = parse_tun(&TunSection::default()).unwrap();
    assert_eq!(t.addr, ip("10.99.0.1"));
    assert_eq!(t.prefix, 24);
    assert_eq!(t.mtu, 1420);
    let bad = TunSection {
        addr: "10.99.0.01".to_string(),
        prefix: 24,
        mtu: 1,
    };
    assert_eq!(
        causes(parse_tun(&bad).err().unwrap()),
        vec!["invalid IPv4 address syntax", "[tun] invalid addr 10.99.0.01"]
    );
    for prefix in [0u8, 31] {
        let t = TunSection {
            addr: "10.99.0.1".to_string(),
            prefix,
            mtu: 1,
        };
        assert_eq!(
            causes(parse_tun(&t).err().unwrap()),
            vec!["[tun] prefix must be between 1 and 30"]
        );
    }
}

fn inputs(n: usize) -> Vec<ServerInput> {
    (0..n)
        .map(|_| ServerInput {
            addr: Ok(addr("203.0.113.10", 8443)),
            key_env: Err("environment variable not found".to_string()),
        })
        .collect()
}

#[test]
fn configuration_loads() {
    let secret = SecretKey::from_bytes([1u8; 32]);
    let default = Some(Psk::from_bytes([2u8; 32]));
    let mut f = file(vec![section("a", None), section("b", None)]);
    f.pool_size = Some(5);
    f.server[1].pool_size = Some(3);
    f.server[1].key_value = Some(PublicKey::from_bytes([9u8; 32]).to_base64());
    f.knock.enabled = true;
    f.forward.push(ForwardSection {
        local: "127.0.0.1:2201".to_string(),
        server: "a".to_string(),
        remote_port: 22,
    });
    let c = load(
        &f,
        &secret,
        &default,
        &inputs(2),
        &[Ok(addr("127.0.0.1", 2201))],
    )
    .ok()
    .unwrap();
    assert_eq!(c.servers.len(), 2);
    assert_eq!(c.servers[0].name, "a");
    assert_eq!(c.servers[0].virtual_ip, ip("10.99.0.10"));
    assert_eq!(c.servers[0].pool_size, 5);
    assert_eq!(c.servers[0].params.psk.as_bytes(), &[2u8; 32]);
    assert_eq!(c.servers[0].params.knock.unwrap().port, 8443);
    assert_eq!(c.servers[0].params.fwmark, None);
    assert_eq!(c.servers[1].virtual_ip, ip("10.99.0.11"));
    assert_eq!(c.servers[1].pool_size, 3);
    assert_eq!(c.servers[1].params.psk.as_bytes(), &[9u8; 32]);
    assert_eq!(c.servers[1].params.server_pubkey.to_bytes(), [7u8; 32]);
    assert_eq!(c.servers[1].params.static_secret.as_bytes(), &[1u8; 32]);
    assert_eq!(c.forwards[0].server, "a");
    assert_eq!(c.forwards[0].remote_port, 22);
    assert_eq!(
        server_ips(&c),
        vec![IpAddr::V4(ip("203.0.113.10")), IpAddr::V4(ip("203.0.113.10"))]
    );

    f.pool_size = None;
    f.server[0].pool_size = None;
    f.knock.port = Some(99);
    let c = load(&f, &secret, &default, &inputs(2), &[Ok(addr("127.0.0.1", 1))])
        .ok()
        .unwrap();
    assert_eq!(c.servers[0].pool_size, 2);
    assert_eq!(c.servers[0].params.knock.unwrap().port, 99);
}

#[test]
fn each_load_failure_has_its_causes() {
    let secret = SecretKey::from_bytes([1u8; 32]);
    let default = Some(Psk::from_bytes([2u8; 32]));
    let failure = |f: &FileConfig,
                   d: &Option<Psk>,
                   i: &[ServerInput],
                   l: &[Result<SocketAddr, String>]| {
        causes(load(f, &secret, d, i, l).err().unwrap())
    };
    let no_addr = || Err("invalid socket address syntax".to_string());
    let one = file(vec![section("a", None)]);
    let none = vec![ServerInput {
        addr: no_addr(),
        key_env: Err(String::new()),
    }];
    assert_eq!(
        failure(&one, &default, &none, &[]),
        vec![
            "invalid socket address syntax",
            "server a: invalid addr 203.0.113.10:8443"
        ]
    );
    let mut bad_key = file(vec![section("a", None)]);
    bad_key.server[0].server_pubkey = "AAAA".to_string();
    assert_eq!(
        failure(&bad_key, &default, &inputs(1), &[]),
        vec![
            "protocol violation: key must be 32 bytes",
            "server a: invalid server_pubkey"
        ]
    );
    assert_eq!(
        failure(&one, &None, &inputs(1), &[]),
        vec![
            "server has no key_env/key_value and no global [key] is configured",
            "server a: psk"
        ]
    );
    let mut env = file(vec![section("a", None)]);
    env.server[0].key_env = Some("KEY".to_string());
    assert_eq!(
        failure(&env, &default, &inputs(1), &[]),
        vec![
            "environment variable not found",
            "env var KEY not set",
            "server a: psk"
        ]
    );
    let mut with_env = inputs(1);
    with_env[0].key_env = Ok("???".to_string());
    assert_eq!(
        failure(&env, &default, &with_env, &[]),
        vec![
            "protocol violation: invalid base64 psk",
            "invalid PSK",
            "server a: psk"
        ]
    );
    let twice = file(vec![section("a", None), section("a", None)]);
    assert_eq!(
        failure(&twice, &default, &inputs(2), &[]),
        vec!["duplicate server name: a"]
    );
    let mut fwd = file(vec![section("a", None)]);
    fwd.forward.push(ForwardSection {
        local: "x".to_string(),
        server: "b".to_string(),
        remote_port: 22,
    });
    assert_eq!(
        failure(&fwd, &default, &inputs(1), &[no_addr()]),
        vec!["invalid socket address syntax", "forward: invalid local addr x"]
    );
    assert_eq!(
        failure(&fwd, &default, &inputs(1), &[Ok(addr("127.0.0.1", 1))]),
        vec!["forward references unknown server: b"]
    );
}

fn key(source: &str) -> KeySection {
    KeySection {
        source: source.to_string(),
        env_var: None,
        value: None,
        passphrase_env: None,
        salt: None,
    }
}

#[test]
fn default_keys_are_planned_and_resolved() {
    let plan = |k: &KeySection| causes(plan_default_key(k).err().unwrap());
    assert_eq!(
        plan(&key("passphrase")),
        vec!["[key] source = passphrase requires salt"]
    );
    assert_eq!(
        plan(&key("env")),
        vec!["[key] source = env requires env_var"]
    );
    assert_eq!(
        plan(&key("value")),
        vec!["[key] source = value requires value"]
    );
    assert_eq!(plan(&key("file")), vec!["unknown [key] source: file"]);

    let mut k = key("passphrase");
    k.salt = Some("saltsalt".to_string());
    let p = plan_default_key(&k).ok().unwrap();
    let psk = resolve_default_psk(&p, Ok("pw")).ok().unwrap();
    assert_eq!(
        psk.as_bytes(),
        Psk::from_passphrase(b"pw", b"saltsalt").unwrap().as_bytes()
    );
    k.salt = Some("short".to_string());
    let p = plan_default_key(&k).ok().unwrap();
    assert_eq!(
        causes(resolve_default_psk(&p, Ok("pw")).err().unwrap()),
        vec![
            "protocol violation: salt must be at least 8 bytes",
            "deriving PSK from passphrase"
        ]
    );
    let mut e = key("env");
    e.env_var = Some("VAR".to_string());
    let p = plan_default_key(&e).ok().unwrap();
    assert!(matches!(&p, KeyPlan::Env { var } if var == "VAR"));
    assert_eq!(
        causes(resolve_default_psk(&p, Err("not there")).err().unwrap()),
        vec!["not there", "env var VAR not set"]
    );
    let b64 = PublicKey::from_bytes([4u8; 32]).to_base64();
    assert_eq!(
        resolve_default_psk(&p, Ok(&b64)).ok().unwrap().as_bytes(),
        &[4u8; 32]
    );
    let mut v = key("value");
    v.value = Some(b64);
    let p = plan_default_key(&v).ok().unwrap();
    assert_eq!(
        resolve_default_psk(&p, Err("")).ok().unwrap().as_bytes(),
        &[4u8; 32]
    );
    assert_eq!(
        causes(parse_admin_key("AAAA").err().unwrap()),
        vec![
            "protocol violation: key must be 32 bytes",
            "invalid admin key"
        ]
    );
}

#[test]
fn initial_configuration_summarizes() {
    let o = init_config(false, false, "/c/hyperion.toml", "/c/admin.key")
        .ok()
        .unwrap();
    assert_eq!(o.file.admin_static_key_file, "/c/admin.key");
    assert!(o.file.knock.enabled);
    assert!(o.salt.len() <= 22);
    assert!(o.salt.chars().all(|c| c.is_alphanumeric()));
    let secret = SecretKey::from_base64(&o.secret).unwrap();
    assert_eq!(o.admin_pubkey, secret.public_key().to_base64());
    let s = summarize(&o.file).ok().unwrap();
    assert!(s.key_is_passphrase);
    assert_eq!(s.passphrase_env.as_deref(), Some("HYPERION_PASSPHRASE"));
    assert_eq!(s.tun_addr, ip("10.99.0.1"));
    assert!(s.servers.is_empty());
    assert_eq!(
        causes(
            init_config(false, true, "/c/hyperion.toml", "/c/admin.key")
                .err()
                .unwrap()
        ),
        vec!["config already exists at /c/hyperion.toml (use --force to overwrite)"]
    );
    assert!(init_config(true, true, "/c/hyperion.toml", "/c/admin.key").is_ok());
    let mut b = [0u8; 32];
    b[0] = 0xfb;
    b[1] = 0xff;
    assert_eq!(make_salt(&PublicKey::from_bytes(b)), "8AAAAAAAAAAAAAAAAAAAAA");
}

#[test]
fn servers_come_and_go() {
    let mut f = initial_config("admin.key", "salt");
    let key = PublicKey::from_bytes([7u8; 32]).to_base64();
    let vip = add_server(&mut f, "web1", "203.0.113.10:8443", &key)
        .ok()
        .unwrap();
    assert_eq!(vip, ip("10.99.0.10"));
    assert_eq!(f.server[0].virtual_ip.as_deref(), Some("10.99.0.10"));
    assert_eq!(f.server[0].addr, "203.0.113.10:8443");
    assert_eq!(
        add_server(&mut f, "web2", "203.0.113.11:8443", &key)
            .ok()
            .unwrap(),
        ip("10.99.0.11")
    );
    assert_eq!(
        causes(add_server(&mut f, "web1", "x", &key).err().unwrap()),
        vec!["server web1 already exists"]
    );
    assert_eq!(f.server.len(), 2);
    assert!(remove_server(&mut f, "web1").is_ok());
    assert_eq!(f.server.len(), 1);
    assert_eq!(f.server[0].name, "web2");
    assert_eq!(
        causes(remove_server(&mut f, "web1").err().unwrap()),
        vec!["no server named web1"]
    );
    assert_eq!(
        add_server(&mut f, "web3", "203.0.113.12:8443", &key)
            .ok()
            .unwrap(),
        ip("10.99.0.10")
    );
    assert!(remove_server(&mut f, "web3").is_ok());
    assert_eq!(f.server.len(), 1);
    assert_eq!(f.server[0].name, "web2");
    assert_eq!(normalize_addr("203.0.113.10"), "203.0.113.10:8443");
    assert_eq!(normalize_addr("203.0.113.10:1"), "203.0.113.10:1");
    assert!(check_new_server("a:1", None, &key).is_ok());
    assert_eq!(
        causes(check_new_server("a:1", Some("no address"), &key).err().unwrap()),
        vec!["no address", "invalid server addr a:1"]
    );
    assert_eq!(
        causes(add_server(&mut f, "web4", "203.0.113.13:8443", "x").err().unwrap()),
        vec![
            "protocol violation: invalid base64 key",
            "invalid server_pubkey"
        ]
    );
    assert_eq!(f.server.len(), 1);
    assert_eq!(
        causes(check_new_server("a:1", None, "x").err().unwrap()),
        vec![
            "protocol violation: invalid base64 key",
            "invalid server_pubkey"
        ]
    );
}

#[test]
fn added_servers_keep_their_addresses() {
    let mut f = initial_config("admin.key", "salt");
    let key = PublicKey::from_bytes([7u8; 32]).to_base64();
    let tun = parse_tun(&f.tun).ok().unwrap();
    let a = add_server(&mut f, "a", "203.0.113.10:8443", &key)
        .ok()
        .unwrap();
    let b = add_server(&mut f, "b", "203.0.113.11:8443", &key)
        .ok()
        .unwrap();
    assert_eq!(resolve_virtual_ips(&tun, &f.server).unwrap(), vec![a, b]);
    let c = add_server(&mut f, "c", "203.0.113.12:8443", &key)
        .ok()
        .unwrap();
    assert_eq!(resolve_virtual_ips(&tun, &f.server).unwrap(), vec![a, b, c]);
    assert!(remove_server(&mut f, "a").is_ok());
    assert_eq!(resolve_virtual_ips(&tun, &f.server).unwrap(), vec![b, c]);
}

#[test]
fn addresses_that_are_not_written_down_are_stable_too() {
    let key = PublicKey::from_bytes([7u8; 32]).to_base64();
    let mut f = file(vec![section("b", None)]);
    assert_eq!(
        summarize(&f).ok().unwrap().servers[0].virtual_ip,
        ip("10.99.0.10")
    );
    let c = add_server(&mut f, "c", "203.0.113.11:8443", &key)
        .ok()
        .unwrap();
    assert_eq!(c, ip("10.99.0.11"));
    let s = summarize(&f).ok().unwrap();
    assert_eq!(s.servers[0].virtual_ip, ip("10.99.0.10"));
    assert_eq!(s.servers[1].virtual_ip, c);

    let mut f = file(vec![
        section("a", None),
        section("b", None),
        section("c", Some("10.99.0.11")),
        section("d", None),
    ]);
    let tun = parse_tun(&f.tun).ok().unwrap();
    let before = resolve_virtual_ips(&tun, &f.server).unwrap();
    assert_eq!(before[3], ip("10.99.0.13"));
    assert!(remove_server(&mut f, "a").is_ok());
    assert_eq!(resolve_virtual_ips(&tun, &f.server).unwrap(), before[1..]);
    assert_eq!(f.server[0].virtual_ip.as_deref(), Some("10.99.0.12"));
    assert_eq!(f.server[1].virtual_ip.as_deref(), Some("10.99.0.11"));
    assert!(remove_server(&mut f, "a").is_err());

    let mut unresolved = file(vec![section("a", None), section("b", Some("?"))]);
    assert!(remove_server(&mut unresolved, "b").is_ok());
    assert_eq!(unresolved.server.len(), 1);
    assert_eq!(unresolved.server[0].virtual_ip, None);
}

#[test]
fn connections_go_to_the_server_with_the_address() {
    let secret = SecretKey::from_bytes([1u8; 32]);
    let default = Some(Psk::from_bytes([2u8; 32]));
    let f = file(vec![section("a", Some("10.99.0.20")), section("b", None)]);
    let c = load(&f, &secret, &default, &inputs(2), &[]).ok().unwrap();
    assert_eq!(server_of(&c.servers, "b"), Some(1));
    assert_eq!(server_of(&c.servers, "c"), None);
    let routes = managed_routes(&c.servers).ok().unwrap();
    assert_eq!(
        routes,
        vec![IpAddr::V4(ip("10.99.0.20")), IpAddr::V4(ip("10.99.0.10"))]
    );
    assert_eq!(
        on_stream(&routes, TunStream::Tcp(addr("10.99.0.10", 22))),
        TunAction::Forward(1, 22)
    );
    assert_eq!(
        on_stream(&routes, TunStream::Tcp(addr("10.99.0.20", 5432))),
        TunAction::Forward(0, 5432)
    );
    assert_eq!(
        on_stream(&routes, TunStream::Tcp(addr("10.99.0.11", 22))),
        TunAction::NoRoute
    );
    assert_eq!(on_stream(&routes, TunStream::Udp), TunAction::Unsupported);
    assert_eq!(on_stream(&routes, TunStream::Other), TunAction::Unsupported);
    let real = real_routes(&c.servers).ok().unwrap();
    assert_eq!(
        on_stream(&real, TunStream::Tcp(addr("203.0.113.10", 80))),
        TunAction::Forward(1, 80)
    );
    assert_eq!(
        causes(managed_routes(&[]).err().unwrap()),
        vec!["no servers configured; add one with `hyperion-client add-server`"]
    );
    assert_eq!(
        causes(real_routes(&[]).err().unwrap()),
        vec!["no servers configured"]
    );
}

#[test]
fn forwards_must_not_share_a_local_address() {
    let f = |s: &str| parse_forward_spec(s).ok().unwrap();
    assert!(check_duplicate_locals(&[f("1:a:22"), f("2:a:22")]).is_ok());
    assert_eq!(
        check_duplicate_locals(&[f("1:a:22"), f("2:a:22"), f("1:b:23")]),
        Err(addr("127.0.0.1", 1))
    );
    let specs = vec!["2:a:22".to_string()];
    let all = plan_forwards(vec![f("1:a:22")], &specs).ok().unwrap();
    assert_eq!(all.len(), 2);
    assert!(matches!(
        plan_forwards(Vec::new(), &[]),
        Err(ForwardError::Nothing)
    ));
    assert!(matches!(
        plan_forwards(vec![f("2:b:1")], &specs),
        Err(ForwardError::Duplicate(a)) if a == addr("127.0.0.1", 2)
    ));
    assert!(matches!(
        plan_forwards(
            vec![f("1:a:22"), f("2:a:22"), f("3:a:22")],
            &["2:b:1".to_string(), "1:b:1".to_string()]
        ),
        Err(ForwardError::Duplicate(a)) if a == addr("127.0.0.1", 2)
    ));
    assert!(matches!(
        plan_forwards(vec![f("2:b:1")], &["x".to_string()]),
        Err(ForwardError::Argument(_))
    ));
}

#[test]
fn client_texts() {
    let f = file(vec![section("web1-long", None)]);
    let s = summarize(&f).ok().unwrap();
    let expected_table = "tun device hyperion0 at 10.99.0.1\n\
        name       fake ip          reach it at\n\
        web1-long  10.99.0.10       ssh user@10.99.0.10   (203.0.113.10:8443)\n";
    assert_eq!(table(&s), expected_table);
    assert_eq!(
        up_banner(&s, 42, "/l"),
        format!(
            "hyperion up (pid 42) — tunnels establishing in the background.\n\n{}\nstop with: hyperion-client down\nlogs:      /l\n",
            expected_table
        )
    );
    assert_eq!(
        status_text(Some(42), Some(&s)),
        format!("hyperion: UP (pid 42)\n{}", expected_table)
    );
    assert_eq!(
        status_text(None, None),
        "hyperion: down\nno config yet — run `hyperion-client init`\n"
    );
    let empty = summarize(&file(Vec::new())).ok().unwrap();
    assert_eq!(
        table(&empty),
        "tun device hyperion0 at 10.99.0.1\n(no servers — add one: hyperion-client add-server <name> <host:port> <pubkey>)\n"
    );
    assert_eq!(
        added_report("web1", ip("10.99.0.10")),
        "added server 'web1' — fake IP 10.99.0.10\nreach it (once `up`): ssh user@10.99.0.10\n"
    );
    assert!(init_report("/p", "PUB", "SALT").contains("\n  PUB\n"));
    assert_eq!(daemon_args("/c"), vec!["serve", "--config", "/c"]);
    assert_eq!(proc_needle(), "hyperion");
}

#[test]
fn going_up_needs_servers_and_no_running_process() {
    let s = summarize(&file(vec![section("a", None)])).ok().unwrap();
    let empty = summarize(&file(Vec::new())).ok().unwrap();
    assert_eq!(
        causes(no_config("/c")),
        vec!["no config at /c\nrun `hyperion-client init` first, then add a server with `add-server`"]
    );
    assert_eq!(
        causes(plan_up(&empty, None).err().unwrap()),
        vec!["no servers configured\nadd one: hyperion-client add-server <name> <host:port> <server_pubkey>"]
    );
    assert_eq!(
        causes(plan_up(&s, Some(7)).err().unwrap()),
        vec!["hyperion is already up (pid 7); run `hyperion-client down` first"]
    );
    let p = plan_up(&s, None).ok().unwrap();
    assert_eq!(p.pass_var, "HYPERION_PASSPHRASE");
    assert!(!p.prompts(false));
    let (plan, said) = down(Some(7), true, true);
    assert_eq!(plan, StopPlan::Kill(7));
    assert_eq!(said, "hyperion down (stopped pid 7)");
}

#[test]
fn doctor_sums_up_its_checks() {
    assert!(doctor_verdict(&[CheckOutcome::Connected]).is_ok());
    assert_eq!(
        causes(doctor_verdict(&[]).err().unwrap()),
        vec!["no servers configured"]
    );
    assert_eq!(
        causes(
            doctor_verdict(&[CheckOutcome::Connected, CheckOutcome::TimedOut])
                .err()
                .unwrap()
        ),
        vec!["one or more servers failed the connectivity check"]
    );
    assert_eq!(CheckOutcome::TimedOut.message(), "FAIL: timed out");
    assert_eq!(
        CheckOutcome::Failed("x".to_string()).message(),
        "FAIL: x"
    );
    assert_eq!(
        CheckOutcome::Connected.message(),
        "ok (knock + handshake)"
    );
}

fn ips() -> Vec<String> {
    vec!["203.0.113.10".to_string(), "203.0.113.11".to_string()]
}

#[test]
fn up_script_routes_and_excludes_marked() {
    let ips = ips();
    let s = script(&RouteParams {
        server_ips: &ips,
        dev: "hyperion0",
        mark: 0x6879,
        table: 26745,
        priority: 100,
        down: false,
    });
    assert!(s.contains("ip route add 203.0.113.10/32 dev hyperion0 table 26745"));
    assert!(s.contains("ip rule add to 203.0.113.11/32 not fwmark 0x6879 lookup 26745 priority 100"));
    assert!(s.starts_with("#!/bin/sh\nset -e\n# Hyperion L3 TUN routing — route each server IP via 'hyperion0', except the tunnel's own\n# (SO_MARK 0x6879) sockets, which keep the physical route.\nip route add"));
}

#[test]
fn down_script_uses_del() {
    let ips = ips();
    let s = script(&RouteParams {
        server_ips: &ips,
        dev: "hyperion0",
        mark: 0x6879,
        table: 26745,
        priority: 100,
        down: true,
    });
    assert!(s.contains("ip rule del to 203.0.113.10/32"));
    assert!(s.contains("ip route del 203.0.113.10/32 dev hyperion0 table 26745"));
    assert_eq!(
        s,
        "#!/bin/sh\nset -e\n# Hyperion L3 TUN routing — teardown\n\
         ip rule del to 203.0.113.10/32 not fwmark 0x6879 lookup 26745 priority 100\n\
         ip route del 203.0.113.10/32 dev hyperion0 table 26745\n\
         ip rule del to 203.0.113.11/32 not fwmark 0x6879 lookup 26745 priority 100\n\
         ip route del 203.0.113.11/32 dev hyperion0 table 26745\n"
    );
}
