use hyperion_vpn::client::config::{resolve_default_psk, KeyPlan as ClientPlan};
use hyperion_vpn::common::StopPlan;
use hyperion_vpn::failure::Failure;
use hyperion_vpn::net::{IpAddr, Ipv4Addr, SocketAddr};
use hyperion_vpn::server::config::{
    init_config, initial_config, listen_addr, load, load_psk, parse_static_key, plan_key,
    summarize, EgressSection, FirewallSection, InitPlace, KeyPlan, KeySource, KnockSection, Limits,
};
use hyperion_vpn::server::daemon::{
    daemon_args, down, init_report, no_config, plan_up, status_text, up_banner,
};
use hyperion_vpn::server::firewall::{base_ruleset, Firewall};
use hyperion_vpn::tunnel::keys::{PublicKey, SecretKey};
use hyperion_vpn::secret::{derive_psk, parse_psk};
use hyperion_vpn::tunnel::psk::Psk;

fn causes(f: Failure) -> Vec<String> {
    f.causes
}

#[test]
fn add_element_args_builds_nft_command() {
    let fw = Firewall::new("hyperion".into(), "knock_allow".into(), 30);
    let args = fw.add_element_args(Ipv4Addr::parse("203.0.113.7").unwrap());
    assert_eq!(
        args,
        vec![
            "add",
            "element",
            "inet",
            "hyperion",
            "knock_allow",
            "{ 203.0.113.7 timeout 30s }"
        ]
    );
}

#[test]
fn base_ruleset_has_drop_policy_and_gated_port() {
    let r = base_ruleset("hyperion", "knock_allow", 8443);
    assert!(r.contains("policy drop"));
    assert!(r.contains("ip saddr @knock_allow tcp dport 8443 accept"));
    assert!(r.contains("ct state established,related accept"));
}

#[test]
fn base_ruleset_text_is_exact() {
    assert_eq!(
        base_ruleset("t", "s", 1),
        "table inet t {\n  set s { type ipv4_addr; flags timeout; }\n  chain input {\n    type filter hook input priority 0; policy drop;\n    ct state established,related accept\n    iif lo accept\n    ip saddr @s tcp dport 1 accept\n  }\n}\n"
    );
}

fn admin() -> String {
    PublicKey::from_bytes([7u8; 32]).to_base64()
}

fn listen() -> SocketAddr {
    SocketAddr::new(IpAddr::V4(Ipv4Addr::new(0, 0, 0, 0)), 8443)
}

#[test]
fn server_configuration_loads() {
    let mut f = initial_config("saltsalt", &admin(), &[22, 5432], "0.0.0.0:8443", "server.key");
    let secret = SecretKey::from_bytes([1u8; 32]);
    let public = secret.public_key();
    let c = load(&f, listen(), Psk::from_bytes([2u8; 32]), secret)
        .ok()
        .unwrap();
    assert_eq!(c.listen, listen());
    assert_eq!(c.server.allowed_admins, vec![PublicKey::from_bytes([7u8; 32])]);
    assert!(c.server.egress.permits(22));
    assert!(!c.server.egress.permits(23));
    assert_eq!(c.server.handshake_timeout_ms, 3000);
    assert_eq!(c.server.psk.as_bytes(), &[2u8; 32]);
    let k = c.knock.unwrap();
    assert_eq!(k.knock_port, 8443);
    assert_eq!(k.tunnel_port, 8443);
    assert_eq!(k.window_secs, 30);
    assert_eq!(k.server_pub, public);
    assert_eq!(k.table, "hyperion");
    assert_eq!(k.set, "knock_allow");
    assert_eq!(k.ttl_secs, 60);

    f.knock.knock_port = Some(4000);
    f.knock.window_secs = Some(5);
    let c = load(&f, listen(), Psk::from_bytes([2u8; 32]), SecretKey::from_bytes([1u8; 32]))
        .ok()
        .unwrap();
    let k = c.knock.unwrap();
    assert_eq!((k.knock_port, k.tunnel_port, k.window_secs), (4000, 8443, 5));
    f.knock.enabled = false;
    let c = load(&f, listen(), Psk::from_bytes([2u8; 32]), SecretKey::from_bytes([1u8; 32]))
        .ok()
        .unwrap();
    assert!(c.knock.is_none());

    f.identity.admin_pubkeys = vec![admin(), "AAAA".to_string()];
    assert_eq!(
        causes(
            load(&f, listen(), Psk::from_bytes([2u8; 32]), SecretKey::from_bytes([1u8; 32]))
                .err()
                .unwrap()
        ),
        vec![
            "protocol violation: key must be 32 bytes",
            "invalid admin pubkey"
        ]
    );
    f.identity.admin_pubkeys = Vec::new();
    assert_eq!(
        causes(
            load(&f, listen(), Psk::from_bytes([2u8; 32]), SecretKey::from_bytes([1u8; 32]))
                .err()
                .unwrap()
        ),
        vec!["identity.admin_pubkeys is empty — no admin could authenticate"]
    );
    assert_eq!(listen_addr(&f, Ok(listen())).ok().unwrap(), listen());
    assert_eq!(
        causes(listen_addr(&f, Err("no address")).err().unwrap()),
        vec!["no address", "invalid listen address: 0.0.0.0:8443"]
    );
    assert_eq!(
        causes(parse_static_key("x").err().unwrap()),
        vec![
            "protocol violation: invalid base64 key",
            "invalid static key"
        ]
    );
}

fn source(s: &str) -> KeySource {
    KeySource {
        source: s.to_string(),
        env_var: None,
        file: None,
        value: None,
        passphrase_env: None,
        salt: None,
    }
}

#[test]
fn keys_come_from_four_sources() {
    let plan = |k: &KeySource| causes(plan_key(k).err().unwrap());
    assert_eq!(
        plan(&source("passphrase")),
        vec!["key.source = passphrase requires key.salt"]
    );
    assert_eq!(
        plan(&source("env")),
        vec!["key.source = env requires key.env_var"]
    );
    assert_eq!(
        plan(&source("file")),
        vec!["key.source = file requires key.file"]
    );
    assert_eq!(
        plan(&source("value")),
        vec!["key.source = value requires key.value"]
    );
    assert_eq!(plan(&source("x")), vec!["unknown key.source: x"]);
    let b64 = PublicKey::from_bytes([4u8; 32]).to_base64();
    let mut f = source("file");
    f.file = Some("~/psk".to_string());
    let p = plan_key(&f).ok().unwrap();
    assert!(matches!(&p, KeyPlan::File { path } if path == "~/psk"));
    assert_eq!(
        load_psk(&p, Ok(&format!("{}\n", b64)))
            .ok()
            .unwrap()
            .as_bytes(),
        &[4u8; 32]
    );
    assert_eq!(
        causes(load_psk(&p, Ok("")).err().unwrap()),
        vec!["protocol violation: psk must be 32 bytes", "invalid PSK"]
    );
    let mut e = source("env");
    e.env_var = Some("VAR".to_string());
    let p = plan_key(&e).ok().unwrap();
    assert_eq!(
        causes(load_psk(&p, Err("not there")).err().unwrap()),
        vec!["not there", "env var VAR not set"]
    );
    let mut v = source("value");
    v.value = Some(b64);
    let p = plan_key(&v).ok().unwrap();
    assert_eq!(load_psk(&p, Err("")).ok().unwrap().as_bytes(), &[4u8; 32]);
    let mut w = source("passphrase");
    w.salt = Some("saltsalt".to_string());
    let p = plan_key(&w).ok().unwrap();
    assert_eq!(
        load_psk(&p, Ok("pw")).ok().unwrap().as_bytes(),
        Psk::from_passphrase(b"pw", b"saltsalt").unwrap().as_bytes()
    );
}

#[test]
fn both_ends_derive_one_key() {
    let client = ClientPlan::Passphrase {
        salt: "shared-salt".to_string(),
        env: None,
    };
    let server = KeyPlan::Passphrase {
        salt: "shared-salt".to_string(),
        env: Some("VAR".to_string()),
    };
    let a = resolve_default_psk(&client, Ok("correct horse")).ok().unwrap();
    let b = load_psk(&server, Ok("correct horse")).ok().unwrap();
    assert_eq!(a.as_bytes(), b.as_bytes());
    let c = derive_psk("correct horse", "shared-salt").ok().unwrap();
    assert_eq!(a.as_bytes(), c.as_bytes());
    assert_eq!(
        causes(derive_psk("pw", "short").err().unwrap()),
        vec![
            "protocol violation: salt must be at least 8 bytes",
            "deriving PSK from passphrase"
        ]
    );
    assert_eq!(
        causes(parse_psk("?").err().unwrap()),
        vec!["protocol violation: invalid base64 psk", "invalid PSK"]
    );
}

#[test]
fn firewall_copies_build_the_same_commands() {
    let fw = Firewall::new("t".into(), "s".into(), 5);
    let ip = Ipv4Addr::new(192, 0, 2, 1);
    assert_eq!(fw.clone().add_element_args(ip), fw.add_element_args(ip));
    assert_eq!(fw.add_element_args(ip)[5], "{ 192.0.2.1 timeout 5s }");
}

#[test]
fn new_server_loads_with_its_admin() {
    let place = InitPlace {
        cfg_path: "/c/server.toml",
        key_path: "/c/server.key",
        exists: false,
    };
    let o = init_config("saltsalt", &admin(), &[22], "0.0.0.0:8443", None, false, &place)
        .ok()
        .unwrap();
    let secret = parse_static_key(&o.secret).ok().unwrap();
    let c = load(&o.file, listen(), Psk::from_bytes([3u8; 32]), secret)
        .ok()
        .unwrap();
    assert_eq!(c.server.allowed_admins.len(), 1);
    assert_eq!(c.server.allowed_admins[0].to_bytes(), [7u8; 32]);
    assert_eq!(c.knock.unwrap().server_pub.to_base64(), o.server_pubkey);
}

#[test]
fn server_initialization_is_checked() {
    let place = |exists: bool| InitPlace {
        cfg_path: "/c/server.toml",
        key_path: "/c/server.key",
        exists,
    };
    let run = |key: &str, valid: bool, force: bool, exists: bool| {
        let refused = if valid { None } else { Some("no address") };
        init_config("saltsalt", key, &[22], "0.0.0.0:8443", refused, force, &place(exists))
    };
    assert_eq!(
        causes(run(&admin(), true, false, true).err().unwrap()),
        vec!["config already exists at /c/server.toml (use --force to overwrite)"]
    );
    assert_eq!(
        causes(run(&admin(), false, true, true).err().unwrap()),
        vec!["no address", "invalid listen address 0.0.0.0:8443"]
    );
    assert_eq!(
        causes(run("x", true, false, false).err().unwrap()),
        vec![
            "protocol violation: invalid base64 key",
            "invalid admin pubkey"
        ]
    );
    let o = run(&admin(), true, false, false).ok().unwrap();
    assert_eq!(o.file.identity.static_key_file, "/c/server.key");
    assert_eq!(o.file.identity.admin_pubkeys, vec![admin()]);
    assert_eq!(
        o.server_pubkey,
        SecretKey::from_base64(&o.secret)
            .unwrap()
            .public_key()
            .to_base64()
    );
    assert!(!KnockSection::default().enabled);
    assert_eq!(FirewallSection::default().ttl_secs, 60);
    assert!(EgressSection::default().allow.is_empty());
    assert_eq!(Limits::default().handshake_timeout_ms, 3000);
}

#[test]
fn server_texts() {
    let f = initial_config("saltsalt", &admin(), &[22, 5432], "0.0.0.0:9000", "server.key");
    let s = summarize(&f);
    assert_eq!(s.admin_count, 1);
    assert!(s.key_is_passphrase);
    assert_eq!(
        up_banner(&s, 7, "/l"),
        "hyperion-server up (pid 7).\n\nlisten:  0.0.0.0:9000\nknock:   enabled\negress:  22, 5432\n\nNOTE: SPA is on, but the firewall is NOT applied automatically.\nApply it deliberately (you can lock yourself out):\n  hyperion-server print-firewall --tunnel-port 9000 | sudo nft -f -\n\nstop with: hyperion-server down\nlogs:      /l\n"
    );
    assert_eq!(
        status_text(Some(7), Some(&s)),
        "hyperion-server: UP (pid 7)\nlisten:  0.0.0.0:9000\nknock:   enabled\nadmins:  1\negress:  22, 5432\n"
    );
    let mut quiet = initial_config("saltsalt", &admin(), &[], "0.0.0.0:9000", "server.key");
    quiet.knock.enabled = false;
    let q = summarize(&quiet);
    assert_eq!(
        up_banner(&q, 7, "/l"),
        "hyperion-server up (pid 7).\n\nlisten:  0.0.0.0:9000\nknock:   off\negress:  deny-all\n\nstop with: hyperion-server down\nlogs:      /l\n"
    );
    assert_eq!(
        status_text(None, Some(&q)),
        "hyperion-server: down\nlisten:  0.0.0.0:9000\nknock:   off\nadmins:  1\negress:  deny-all (no ports allowed yet)\n"
    );
    assert_eq!(
        status_text(None, None),
        "hyperion-server: down\nno config yet — run `hyperion-server init`\n"
    );
    assert_eq!(
        init_report("/p", "PUB", true, "0.0.0.0:9000"),
        "hyperion-server initialized.\n\nconfig:  /p\n\nserver public key (give this to the admin for `add-server`):\n  PUB\n\nNOTE: egress is deny-all. Re-run init with --allow 22,5432 to permit ports,\n      or edit [egress].allow in the config.\n\nnext steps:\n  1. hyperion-server print-firewall --tunnel-port 9000 | sudo nft -f -\n     (review first — this is default-DROP and can lock you out)\n  2. hyperion-server up\n"
    );
    assert_eq!(daemon_args("/c"), vec!["run", "--config", "/c"]);
}

#[test]
fn server_going_up_needs_an_admin() {
    let mut f = initial_config("saltsalt", &admin(), &[], "0.0.0.0:9000", "server.key");
    let s = summarize(&f);
    assert_eq!(
        causes(plan_up(&s, Some(3)).err().unwrap()),
        vec!["hyperion-server is already up (pid 3); run `hyperion-server down` first"]
    );
    let p = plan_up(&s, None).ok().unwrap();
    assert!(p.prompts(false));
    assert!(!p.prompts(true));
    f.identity.admin_pubkeys = Vec::new();
    assert_eq!(
        causes(plan_up(&summarize(&f), None).err().unwrap()),
        vec!["no admin pubkeys configured — re-run init with --admin-key"]
    );
    assert_eq!(
        causes(no_config("/c")),
        vec!["no config at /c\nrun `hyperion-server init --salt <salt> --admin-key <admin_pubkey>` first"]
    );
    assert_eq!(
        down(Some(3), false, true),
        (
            StopPlan::Stale(3),
            "hyperion-server was not running (cleaned up stale pid 3)".to_string()
        )
    );
}
