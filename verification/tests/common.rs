use hyperion_vpn::client::paths as client_paths;
use hyperion_vpn::common::{
    config_dir, early_exit_message, expand_home, home_dir, is_alive, pid_text, port_of,
    process_name_matches, read_passphrase, read_pid, running_pid, secret_file_text, stop_plan,
    Environment, PassphraseSource, PathParts, Probe, StopPlan,
};
use hyperion_vpn::net::Ipv4Addr;
use hyperion_vpn::server::paths as server_paths;
use hyperion_vpn::text;
use std::path::{Path, PathBuf};

fn path(p: PathParts) -> PathBuf {
    let mut out = PathBuf::from(p.base);
    for part in p.parts {
        out = out.join(part);
    }
    out
}

fn env() -> Environment {
    Environment {
        windows: false,
        hyperion_home: None,
        appdata: None,
        userprofile: None,
        xdg_config_home: None,
        home: Some("/home/admin".to_string()),
    }
}

#[test]
fn port_of_extracts_or_defaults() {
    assert_eq!(port_of("0.0.0.0:9000"), "9000");
    assert_eq!(port_of("not-an-addr"), "8443");
    assert_eq!(port_of("[::]:65536"), "8443");
    assert_eq!(port_of("22"), "22");
}

#[test]
fn expand_home_leaves_plain_paths() {
    let home = Some("/home/admin");
    assert_eq!(
        path(expand_home("/etc/hyperion/key", home)),
        Path::new("/etc/hyperion/key")
    );
    assert_eq!(
        path(expand_home("relative/key", home)),
        Path::new("relative/key")
    );
}

#[test]
fn expand_home_resolves_tilde() {
    let e = env();
    let home = home_dir(&e);
    assert_eq!(
        path(expand_home("~/x/key", home)),
        PathBuf::from("/home/admin").join("x/key")
    );
    assert_eq!(
        path(expand_home("~\\key", home)),
        PathBuf::from("/home/admin").join("key")
    );
    assert_eq!(path(expand_home("~/key", None)), Path::new("~/key"));
    assert_eq!(path(expand_home("~key", home)), Path::new("~key"));
}

#[test]
fn configuration_directory_follows_the_environment() {
    let mut e = env();
    assert_eq!(path(config_dir(&e)), Path::new("/home/admin/.config/hyperion"));
    e.xdg_config_home = Some("/x".to_string());
    assert_eq!(path(config_dir(&e)), Path::new("/x/hyperion"));
    e.windows = true;
    assert_eq!(path(config_dir(&e)), Path::new("hyperion"));
    assert!(home_dir(&e).is_none());
    e.userprofile = Some("/u".to_string());
    assert_eq!(
        path(config_dir(&e)),
        Path::new("/u/AppData/Roaming/hyperion")
    );
    assert_eq!(home_dir(&e), Some("/u"));
    e.appdata = Some("/a".to_string());
    assert_eq!(path(config_dir(&e)), Path::new("/a/hyperion"));
    e.hyperion_home = Some("/h".to_string());
    assert_eq!(path(config_dir(&e)), Path::new("/h"));
    assert_eq!(path(client_paths::config_file(&e)), Path::new("/h/hyperion.toml"));
    assert_eq!(path(client_paths::admin_key_file(&e)), Path::new("/h/admin.key"));
    assert_eq!(path(client_paths::pid_file(&e)), Path::new("/h/hyperion.pid"));
    assert_eq!(path(client_paths::log_file(&e)), Path::new("/h/hyperion.log"));
    assert_eq!(
        path(client_paths::default_config_path(&e)),
        Path::new("/h/hyperion.toml")
    );
    assert_eq!(path(client_paths::ensure_config_dir(&e)), Path::new("/h"));
    assert_eq!(path(server_paths::config_file(&e)), Path::new("/h/server.toml"));
    assert_eq!(path(server_paths::server_key_file(&e)), Path::new("/h/server.key"));
    assert_eq!(path(server_paths::pid_file(&e)), Path::new("/h/hyperion-server.pid"));
    assert_eq!(path(server_paths::log_file(&e)), Path::new("/h/hyperion-server.log"));
    assert_eq!(path(server_paths::ensure_config_dir(&e)), Path::new("/h"));
    assert_eq!(
        path(server_paths::default_config_path(&e)),
        Path::new("/h/server.toml")
    );
}

#[test]
fn pids_are_read_and_probed() {
    assert_eq!(read_pid(None), None);
    assert_eq!(read_pid(Some(" 42\n")), Some(42));
    assert_eq!(read_pid(Some("+7")), Some(7));
    assert_eq!(read_pid(Some("4294967296")), None);
    assert_eq!(read_pid(Some("-1")), None);
    assert_eq!(read_pid(Some("")), None);
    assert_eq!(pid_text(4294967295), "4294967295");
    assert!(is_alive(1, &Probe::ProcEntry(true)));
    assert!(!is_alive(1, &Probe::ProcEntry(false)));
    assert!(is_alive(42, &Probe::TaskList(Some("x.exe 42 Console".to_string()))));
    assert!(!is_alive(42, &Probe::TaskList(Some("INFO: none".to_string()))));
    assert!(is_alive(42, &Probe::TaskList(None)));
    assert!(!is_alive(42, &Probe::KillStatus(Some(false))));
    assert!(is_alive(42, &Probe::KillStatus(None)));
    assert!(process_name_matches(false, Some("hyperion-client\n"), "hyperion"));
    assert!(!process_name_matches(false, Some("Hyperion"), "hyperion"));
    assert!(process_name_matches(true, Some("Hyperion.exe"), "hyperion"));
    assert!(process_name_matches(false, None, "hyperion"));
    assert_eq!(running_pid(Some(4), true, true), Some(4));
    assert_eq!(running_pid(Some(4), true, false), None);
    assert_eq!(running_pid(Some(4), false, true), None);
    assert_eq!(running_pid(None, true, true), None);
}

#[test]
fn stopping_says_what_was_done() {
    assert_eq!(stop_plan(None, true, true), StopPlan::NotRunning);
    assert_eq!(stop_plan(Some(9), true, true), StopPlan::Kill(9));
    assert_eq!(stop_plan(Some(9), false, true), StopPlan::Stale(9));
    assert_eq!(
        StopPlan::NotRunning.message("hyperion"),
        "hyperion is not running (no pid file)"
    );
    assert_eq!(
        early_exit_message("/l"),
        "daemon exited immediately — check the log:\n  /l"
    );
    assert_eq!(secret_file_text("abc"), "abc\n");
}

#[test]
fn passphrases_come_from_the_named_variable() {
    assert!(matches!(
        read_passphrase(true, Some("p".to_string())),
        PassphraseSource::Given(p) if p == "p"
    ));
    assert!(matches!(read_passphrase(true, None), PassphraseSource::Prompt));
    assert!(matches!(
        read_passphrase(false, Some("p".to_string())),
        PassphraseSource::Prompt
    ));
}

#[test]
fn numbers_and_texts() {
    assert_eq!(text::parse_u16("65535"), Some(65535));
    assert_eq!(text::parse_u16("+22"), Some(22));
    assert_eq!(text::parse_u16("0022"), Some(22));
    assert_eq!(text::parse_u16("65536"), None);
    assert_eq!(text::parse_u16("+"), None);
    assert_eq!(text::parse_u16(""), None);
    assert_eq!(text::parse_u16("2a"), None);
    assert_eq!(text::parse_u32("4294967295"), Some(4294967295));
    assert_eq!(text::decimal_text(0), "0");
    assert_eq!(text::decimal_text(u64::MAX), "18446744073709551615");
    assert_eq!(text::trim("\u{a0} \tx y\u{3000}\n"), "x y");
    assert_eq!(text::trim(" \n"), "");
    assert_eq!(text::split("a::b", ':'), vec!["a", "", "b"]);
    assert_eq!(text::split("", ':'), vec![""]);
    assert!(text::contains("abcabd", "abd"));
    assert!(text::contains("abc", ""));
    assert!(!text::contains("ab", "abc"));
    assert_eq!(text::strip_prefix("héllo", "hé"), Some("llo"));
    assert_eq!(text::to_lower("ÀBC"), "Àbc");
}

#[test]
fn numbers_are_refused_with_the_first_reason() {
    for t in [
        "", "+", "-", "+-1", "-1", "++1", "x", "1x", "1x99999", "99999x", "65535", "65536",
        "6553x", "+65535", "0000065535", "655350", "é1", "9999é", " 1", "1 ",
    ] {
        assert_eq!(
            text::read_u16(t).map_err(|why| why.to_string()),
            t.parse::<u16>().map_err(|e| e.to_string())
        );
    }
}

#[test]
fn addresses_are_read_strictly() {
    assert_eq!(
        Ipv4Addr::parse("203.0.113.7"),
        Some(Ipv4Addr::new(203, 0, 113, 7))
    );
    assert_eq!(Ipv4Addr::parse("0.0.0.0").unwrap().bits, 0);
    assert_eq!(Ipv4Addr::parse("255.255.255.255").unwrap().bits, u32::MAX);
    for bad in ["1.2.3", "1.2.3.4.5", "256.0.0.1", "01.2.3.4", "1.2.3.+4", " 1.2.3.4", "", "1..2.3"] {
        assert_eq!(Ipv4Addr::parse(bad), None);
    }
    assert_eq!(Ipv4Addr::new(10, 99, 0, 10).to_text(), "10.99.0.10");
    assert_eq!(Ipv4Addr::new(1, 2, 3, 4).octets(), [1, 2, 3, 4]);
}

#[test]
fn byte_strings_are_big_endian() {
    assert_eq!(hyperion_vpn::bytes::u16_to_be(0x20fb), [0x20, 0xfb]);
    assert_eq!(hyperion_vpn::bytes::u16_from_be(0x20, 0xfb), 0x20fb);
    assert_eq!(
        hyperion_vpn::bytes::u64_to_be(0x0102030405060708),
        [1, 2, 3, 4, 5, 6, 7, 8]
    );
    assert_eq!(
        hyperion_vpn::bytes::u64_from_be(&[255; 8]),
        u64::MAX
    );
    assert!(hyperion_vpn::bytes::same(b"ab", b"ab"));
    assert!(!hyperion_vpn::bytes::same(b"ab", b"ac"));
}
