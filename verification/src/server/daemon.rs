//! The server's background process: when it starts, and what is said of it.
use crate::common::{self, UpPlan};
use crate::failure::Failure;
use crate::server::config::Summary;
use crate::text;
use vstd::prelude::*;

verus! {

broadcast use vstd::seq_lib::group_seq_properties;

/// What is said when there is no configuration.
pub fn no_config(config_path: &str) -> (r: Failure)
    ensures
        r@ == seq![
            "no config at "@ + config_path@
                + "\nrun `hyperion-server init --salt <salt> --admin-key <admin_pubkey>` first"@,
        ],
{
    Failure::new(
        text::concat3(
            "no config at ",
            config_path,
            "\nrun `hyperion-server init --salt <salt> --admin-key <admin_pubkey>` first",
        ),
    )
}

/// Whether to go up, with the configuration summed up and the process that runs already, if any.
pub fn plan_up(summary: &Summary, running: Option<u32>) -> (r: Result<UpPlan, Failure>)
    ensures
        summary.admin_count == 0 ==> (r matches Err(e) && e@ == seq![
            "no admin pubkeys configured — re-run init with --admin-key"@,
        ]),
        summary.admin_count > 0 && running is Some ==> (r matches Err(e) && e@ == seq![
            "hyperion-server is already up (pid "@ + text::decimal(running->0 as nat)
                + "); run `hyperion-server down` first"@,
        ]),
        summary.admin_count > 0 && running is None ==> (r matches Ok(p) && p.key_is_passphrase
            == summary.key_is_passphrase && p.pass_var@ == common::pass_var_of(
            common::opt_text(summary.passphrase_env),
        )),
{
    if summary.admin_count == 0 {
        return Err(Failure::of("no admin pubkeys configured — re-run init with --admin-key"));
    }
    if let Some(pid) = running {
        let n = text::decimal_text(pid as u64);
        return Err(
            Failure::new(
                text::concat3(
                    "hyperion-server is already up (pid ",
                    n.as_str(),
                    "); run `hyperion-server down` first",
                ),
            ),
        );
    }
    Ok(UpPlan::new(&summary.passphrase_env, summary.key_is_passphrase))
}

/// The arguments of the background process.
pub fn daemon_args(config_path: &str) -> (r: Vec<String>)
    ensures
        text::texts(r@) == seq!["run"@, "--config"@, config_path@],
{
    let mut args: Vec<String> = Vec::new();
    args.push("run".to_owned());
    args.push("--config".to_owned());
    args.push(config_path.to_owned());
    assert(text::texts(args@) =~= seq!["run"@, "--config"@, config_path@]);
    args
}

/// Ports in decimal.
pub open spec fn port_texts(ports: Seq<u16>) -> Seq<Seq<char>> {
    ports.map_values(|p: u16| text::decimal(p as nat))
}

/// A list of ports, or `none` if it is empty.
pub open spec fn ports_text(ports: Seq<u16>, none: Seq<char>) -> Seq<char> {
    if ports.len() == 0 {
        none
    } else {
        text::joined(port_texts(ports), ", "@)
    }
}

/// A list of ports names each of them in base 10, in order, with a comma and a space between each
/// two; an empty list is told by the given word.
pub proof fn every_port_is_named(ports: Seq<u16>, port: u16, none: Seq<char>)
    ensures
        ports_text(Seq::empty(), none) == none,
        ports_text(seq![port], none) == text::decimal(port as nat),
        ports.len() > 0 ==> ports_text(ports.push(port), none) == ports_text(ports, none) + ", "@
            + text::decimal(port as nat),
{
    assert(port_texts(seq![port]) =~= seq![text::decimal(port as nat)]);
    assert(port_texts(ports.push(port)) =~= port_texts(ports).push(text::decimal(port as nat)));
    text::joining_adds_a_piece(port_texts(ports), text::decimal(port as nat), ", "@);
}

fn port_list(ports: &Vec<u16>, none: &str) -> (r: String)
    ensures
        r@ == ports_text(ports@, none@),
{
    if ports.len() == 0 {
        return none.to_owned();
    }
    let mut out: String = text::decimal_text(ports[0] as u64);
    let mut i: usize = 1;
    assert(port_texts(ports@.take(1)) =~= seq![text::decimal(ports@[0] as nat)]);
    while i < ports.len()
        invariant
            1 <= i <= ports@.len(),
            out@ == text::joined(port_texts(ports@.take(i as int)), ", "@),
        decreases ports@.len() - i,
    {
        let ghost before = port_texts(ports@.take(i as int));
        let ghost all = port_texts(ports@.take(i + 1));
        out.append(", ");
        text::push_decimal(&mut out, ports[i] as u64);
        proof {
            assert(all.drop_last() =~= before);
            assert(all.last() == text::decimal(ports@[i as int] as nat));
            assert(all.len() == i + 1);
        }
        i = i + 1;
    }
    assert(ports@.take(ports@.len() as int) =~= ports@);
    out
}

pub open spec fn knock_word(enabled: bool) -> Seq<char> {
    if enabled {
        "enabled"@
    } else {
        "off"@
    }
}

fn knock_text(enabled: bool) -> (r: &'static str)
    ensures
        r@ == knock_word(enabled),
{
    if enabled {
        "enabled"
    } else {
        "off"
    }
}

/// The reminder that the firewall is not applied by itself.
pub open spec fn firewall_note(listen: Seq<char>) -> Seq<char> {
    "\nNOTE: SPA is on, but the firewall is NOT applied automatically.\nApply it deliberately (you can lock yourself out):\n  hyperion-server print-firewall --tunnel-port "@
        + common::port_text(listen) + " | sudo nft -f -\n"@
}

/// What is said once the background process is up.
pub open spec fn banner_text(s: Summary, pid: u32, log_path: Seq<char>) -> Seq<char> {
    "hyperion-server up (pid "@ + text::decimal(pid as nat) + ").\n\nlisten:  "@ + s.listen@
        + "\nknock:   "@ + knock_word(s.knock_enabled) + "\negress:  "@ + ports_text(
        s.egress@,
        "deny-all"@,
    ) + "\n"@ + (if s.knock_enabled {
        firewall_note(s.listen@)
    } else {
        Seq::empty()
    }) + "\nstop with: hyperion-server down\nlogs:      "@ + log_path + "\n"@
}

/// What is said once the background process is up.
pub fn up_banner(s: &Summary, pid: u32, log_path: &str) -> (r: String)
    ensures
        r@ == banner_text(*s, pid, log_path@),
{
    let mut out: String = "hyperion-server up (pid ".to_owned();
    text::push_decimal(&mut out, pid as u64);
    out.append(").\n\nlisten:  ");
    out.append(s.listen.as_str());
    out.append("\nknock:   ");
    out.append(knock_text(s.knock_enabled));
    out.append("\negress:  ");
    let ports = port_list(&s.egress, "deny-all");
    out.append(ports.as_str());
    out.append("\n");
    let ghost head = out@;
    if s.knock_enabled {
        out.append(
            "\nNOTE: SPA is on, but the firewall is NOT applied automatically.\nApply it deliberately (you can lock yourself out):\n  hyperion-server print-firewall --tunnel-port ",
        );
        let port = common::port_of(s.listen.as_str());
        out.append(port.as_str());
        out.append(" | sudo nft -f -\n");
        assert(out@ =~= head + firewall_note(s.listen@));
    } else {
        assert(out@ =~= head + Seq::<char>::empty());
    }
    out.append("\nstop with: hyperion-server down\nlogs:      ");
    out.append(log_path);
    out.append("\n");
    out
}

/// What is said of a server that is up: that knocks are on or off, the process, the address, the
/// ports, and the log; and, exactly if knocks are on, that the firewall is yet to be applied.
pub proof fn what_the_banner_says(s: Summary, pid: u32, log_path: Seq<char>)
    ensures
        knock_word(true) == "enabled"@ && knock_word(false) == "off"@,
        ({
            let head = "hyperion-server up (pid "@ + text::decimal(pid as nat) + ").\n\nlisten:  "@
                + s.listen@ + "\nknock:   "@ + knock_word(s.knock_enabled) + "\negress:  "@
                + ports_text(s.egress@, "deny-all"@) + "\n"@;
            let note = "\nNOTE: SPA is on, but the firewall is NOT applied automatically.\nApply it deliberately (you can lock yourself out):\n  hyperion-server print-firewall --tunnel-port "@
                + common::port_text(s.listen@) + " | sudo nft -f -\n"@;
            let tail = "\nstop with: hyperion-server down\nlogs:      "@ + log_path + "\n"@;
            banner_text(s, pid, log_path) == (if s.knock_enabled {
                head + note + tail
            } else {
                head + tail
            })
        }),
{
    let head = "hyperion-server up (pid "@ + text::decimal(pid as nat) + ").\n\nlisten:  "@
        + s.listen@ + "\nknock:   "@ + knock_word(s.knock_enabled) + "\negress:  "@ + ports_text(
        s.egress@,
        "deny-all"@,
    ) + "\n"@;
    let a = "\nstop with: hyperion-server down\nlogs:      "@;
    let note = firewall_note(s.listen@);
    assert(head + Seq::<char>::empty() =~= head);
    assert(head + a + log_path + "\n"@ =~= head + (a + log_path + "\n"@));
    assert(head + note + a + log_path + "\n"@ =~= head + note + (a + log_path + "\n"@));
}

/// What is said of the configuration.
pub open spec fn summary_text(s: Summary) -> Seq<char> {
    "listen:  "@ + s.listen@ + "\nknock:   "@ + knock_word(s.knock_enabled) + "\nadmins:  "@
        + text::decimal(s.admin_count as nat) + "\negress:  "@ + ports_text(
        s.egress@,
        "deny-all (no ports allowed yet)"@,
    ) + "\n"@
}

/// What is said of the state: the process that runs, if any, and the configuration, if there is
/// one.
#[verifier::spinoff_prover]
#[verifier::rlimit(40)]
pub fn status_text(running: Option<u32>, summary: Option<&Summary>) -> (r: String)
    ensures
        r@ == (match running {
            Some(pid) => "hyperion-server: UP (pid "@ + text::decimal(pid as nat) + ")\n"@,
            None => "hyperion-server: down\n"@,
        }) + (match summary {
            Some(s) => summary_text(*s),
            None => "no config yet — run `hyperion-server init`\n"@,
        }),
{
    let mut out = String::new();
    match running {
        Some(pid) => {
            out.append("hyperion-server: UP (pid ");
            text::push_decimal(&mut out, pid as u64);
            out.append(")\n");
            assert(out@ =~= "hyperion-server: UP (pid "@ + text::decimal(pid as nat) + ")\n"@);
        },
        None => {
            out.append("hyperion-server: down\n");
            assert(out@ =~= "hyperion-server: down\n"@);
        },
    }
    let ghost head = out@;
    match summary {
        Some(s) => {
            out.append("listen:  ");
            out.append(s.listen.as_str());
            out.append("\nknock:   ");
            out.append(knock_text(s.knock_enabled));
            out.append("\nadmins:  ");
            text::push_decimal(&mut out, s.admin_count as u64);
            out.append("\negress:  ");
            let ports = port_list(&s.egress, "deny-all (no ports allowed yet)");
            out.append(ports.as_str());
            out.append("\n");
            assert(out@ =~= head + summary_text(*s));
        },
        None => {
            out.append("no config yet — run `hyperion-server init`\n");
        },
    }
    out
}

/// What is said of the configuration is a line each on the address, knocks, the number of admins and
/// the ports.
pub proof fn what_the_summary_says(s: Summary)
    ensures
        summary_text(s) == "listen:  "@ + s.listen@ + "\nknock:   "@ + (if s.knock_enabled {
            "enabled"@
        } else {
            "off"@
        }) + "\nadmins:  "@ + text::decimal(s.admin_count as nat) + "\negress:  "@ + (
        if s.egress@.len() == 0 {
            "deny-all (no ports allowed yet)"@
        } else {
            ports_text(s.egress@, "deny-all (no ports allowed yet)"@)
        }) + "\n"@,
{
}

/// How to go down, and what is said of it.
pub fn down(pid: Option<u32>, alive: bool, name_matches: bool) -> (r: (common::StopPlan, String))
    ensures
        r.0 == (match pid {
            None => common::StopPlan::NotRunning,
            Some(p) => if alive && name_matches {
                common::StopPlan::Kill(p)
            } else {
                common::StopPlan::Stale(p)
            },
        }),
        r.1@ == common::stop_message(r.0, "hyperion-server"@),
{
    let plan = common::stop_plan(pid, alive, name_matches);
    let said = plan.message("hyperion-server");
    (plan, said)
}

/// What is said after initializing.
pub open spec fn init_text(
    path: Seq<char>,
    server_pubkey: Seq<char>,
    deny_all: bool,
    listen: Seq<char>,
) -> Seq<char> {
    "hyperion-server initialized.\n\nconfig:  "@ + path
        + "\n\nserver public key (give this to the admin for `add-server`):\n  "@ + server_pubkey
        + "\n"@ + (if deny_all {
        "\nNOTE: egress is deny-all. Re-run init with --allow 22,5432 to permit ports,\n      or edit [egress].allow in the config.\n"@
    } else {
        Seq::empty()
    }) + "\nnext steps:\n  1. hyperion-server print-firewall --tunnel-port "@ + common::port_text(
        listen,
    )
        + " | sudo nft -f -\n     (review first — this is default-DROP and can lock you out)\n  2. hyperion-server up\n"@
}

/// What is said after initializing: where the configuration is, the public key, exactly if no ports
/// are permitted that none are, and how to go on with the port of the address.
pub proof fn what_initializing_says(
    path: Seq<char>,
    server_pubkey: Seq<char>,
    listen: Seq<char>,
)
    ensures
        ({
            let head = "hyperion-server initialized.\n\nconfig:  "@ + path
                + "\n\nserver public key (give this to the admin for `add-server`):\n  "@
                + server_pubkey + "\n"@;
            let tail = "\nnext steps:\n  1. hyperion-server print-firewall --tunnel-port "@
                + common::port_text(listen)
                + " | sudo nft -f -\n     (review first — this is default-DROP and can lock you out)\n  2. hyperion-server up\n"@;
            &&& init_text(path, server_pubkey, false, listen) == head + tail
            &&& init_text(path, server_pubkey, true, listen) == head
                + "\nNOTE: egress is deny-all. Re-run init with --allow 22,5432 to permit ports,\n      or edit [egress].allow in the config.\n"@
                + tail
        }),
{
    let head = "hyperion-server initialized.\n\nconfig:  "@ + path
        + "\n\nserver public key (give this to the admin for `add-server`):\n  "@ + server_pubkey
        + "\n"@;
    let note = "\nNOTE: egress is deny-all. Re-run init with --allow 22,5432 to permit ports,\n      or edit [egress].allow in the config.\n"@;
    let a = "\nnext steps:\n  1. hyperion-server print-firewall --tunnel-port "@;
    let b = common::port_text(listen);
    let c = " | sudo nft -f -\n     (review first — this is default-DROP and can lock you out)\n  2. hyperion-server up\n"@;
    assert(head + Seq::<char>::empty() =~= head);
    assert(head + a + b + c =~= head + (a + b + c));
    assert(head + note + a + b + c =~= head + note + (a + b + c));
}

/// What is said after initializing.
pub fn init_report(path: &str, server_pubkey: &str, deny_all: bool, listen: &str) -> (r: String)
    ensures
        r@ == init_text(path@, server_pubkey@, deny_all, listen@),
{
    let mut out: String = "hyperion-server initialized.\n\nconfig:  ".to_owned();
    out.append(path);
    out.append("\n\nserver public key (give this to the admin for `add-server`):\n  ");
    out.append(server_pubkey);
    out.append("\n");
    let ghost head = out@;
    if deny_all {
        out.append(
            "\nNOTE: egress is deny-all. Re-run init with --allow 22,5432 to permit ports,\n      or edit [egress].allow in the config.\n",
        );
    } else {
        assert(out@ =~= head + Seq::<char>::empty());
    }
    out.append("\nnext steps:\n  1. hyperion-server print-firewall --tunnel-port ");
    let port = common::port_of(listen);
    out.append(port.as_str());
    out.append(
        " | sudo nft -f -\n     (review first — this is default-DROP and can lock you out)\n  2. hyperion-server up\n",
    );
    out
}

} // verus!
