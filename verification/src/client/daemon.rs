//! The admin's background process: when it starts, and what is said of it.
use crate::client::config::{self, ForwardEntry, ServerSummary, Summary};
use crate::common::{self, UpPlan};
use crate::failure::{self, Failure};
use crate::net::{self, SocketAddr};
use crate::text;
use vstd::prelude::*;

verus! {

broadcast use vstd::seq_lib::group_seq_properties;

/// What the name of the background process must hold.
pub fn proc_needle() -> (r: &'static str)
    ensures
        r@ == "hyperion"@,
{
    "hyperion"
}

/// What is said when there is no configuration.
pub open spec fn no_config_text(config_path: Seq<char>) -> Seq<char> {
    "no config at "@ + config_path
        + "\nrun `hyperion-client init` first, then add a server with `add-server`"@
}

/// What is said when there is no configuration.
pub fn no_config(config_path: &str) -> (r: Failure)
    ensures
        r@ == seq![no_config_text(config_path@)],
{
    Failure::new(
        text::concat3(
            "no config at ",
            config_path,
            "\nrun `hyperion-client init` first, then add a server with `add-server`",
        ),
    )
}

/// Whether to go up, with the configuration summed up and the process that runs already, if any.
pub fn plan_up(summary: &Summary, running: Option<u32>) -> (r: Result<UpPlan, Failure>)
    ensures
        summary.servers@.len() == 0 ==> (r matches Err(e) && e@ == seq![
            "no servers configured\nadd one: hyperion-client add-server <name> <host:port> <server_pubkey>"@,
        ]),
        summary.servers@.len() > 0 && running is Some ==> (r matches Err(e) && e@ == seq![
            "hyperion is already up (pid "@ + text::decimal(running->0 as nat)
                + "); run `hyperion-client down` first"@,
        ]),
        summary.servers@.len() > 0 && running is None ==> (r matches Ok(p) && p.key_is_passphrase
            == summary.key_is_passphrase && p.pass_var@ == common::pass_var_of(
            common::opt_text(summary.passphrase_env),
        )),
{
    if summary.servers.len() == 0 {
        return Err(
            Failure::of(
                "no servers configured\nadd one: hyperion-client add-server <name> <host:port> <server_pubkey>",
            ),
        );
    }
    if let Some(pid) = running {
        let n = text::decimal_text(pid as u64);
        return Err(
            Failure::new(
                text::concat3(
                    "hyperion is already up (pid ",
                    n.as_str(),
                    "); run `hyperion-client down` first",
                ),
            ),
        );
    }
    Ok(UpPlan::new(&summary.passphrase_env, summary.key_is_passphrase))
}

/// The arguments of the background process.
pub fn daemon_args(config_path: &str) -> (r: Vec<String>)
    ensures
        text::texts(r@) == seq!["serve"@, "--config"@, config_path@],
{
    let mut args: Vec<String> = Vec::new();
    args.push("serve".to_owned());
    args.push("--config".to_owned());
    args.push(config_path.to_owned());
    assert(text::texts(args@) =~= seq!["serve"@, "--config"@, config_path@]);
    args
}

/// `s` with spaces behind it, up to `width` characters.
pub open spec fn padded(s: Seq<char>, width: nat) -> Seq<char> {
    if s.len() < width {
        s + Seq::new((width - s.len()) as nat, |i: int| ' ')
    } else {
        s
    }
}

/// A padded text is the text, with spaces behind it that fill the width, and no shorter than the
/// text.
pub proof fn what_padding_does(s: Seq<char>, width: nat)
    ensures
        s.is_prefix_of(padded(s, width)),
        s.len() <= width ==> padded(s, width).len() == width,
        s.len() > width ==> padded(s, width) == s,
        forall|i: int| s.len() <= i < padded(s, width).len() ==> padded(s, width)[i] == ' ',
{
    assert(padded(s, width).take(s.len() as int) =~= s);
}

fn push_padded(out: &mut String, s: &str, width: usize)
    ensures
        final(out)@ == old(out)@ + padded(s@, width as nat),
{
    let ghost before = out@;
    out.append(s);
    let mut n: usize = s.unicode_len();
    let ghost len = n as int;
    assert(out@ =~= before + s@ + Seq::new(0, |i: int| ' '));
    while n < width
        invariant
            len == s@.len(),
            len <= n,
            n <= width || n == len,
            out@ == before + s@ + Seq::new((n - len) as nat, |i: int| ' '),
        decreases width - n,
    {
        out.push(' ');
        n = n + 1;
        assert(out@ =~= before + s@ + Seq::new((n - len) as nat, |i: int| ' '));
    }
    assert(out@ =~= before + padded(s@, width as nat));
}

/// The length of the longest name in bytes, or 4 if none is longer.
pub open spec fn name_width(servers: Seq<ServerSummary>) -> nat
    decreases servers.len(),
{
    if servers.len() == 0 {
        4
    } else {
        let before = name_width(servers.drop_last());
        let len = vstd::utf8::encode_utf8(servers.last().name@).len();
        if len > before {
            len
        } else {
            before
        }
    }
}

/// The column of names is as wide as the longest name in bytes, and no narrower than 4.
pub proof fn how_wide_names_are(servers: Seq<ServerSummary>)
    ensures
        name_width(servers) >= 4,
        forall|i: int|
            0 <= i < servers.len() ==> vstd::utf8::encode_utf8((#[trigger] servers[i]).name@).len()
                <= name_width(servers),
        name_width(servers) == 4 || exists|i: int|
            0 <= i < servers.len() && vstd::utf8::encode_utf8((#[trigger] servers[i]).name@).len()
                == name_width(servers),
    decreases servers.len(),
{
    if servers.len() > 0 {
        let rest = servers.drop_last();
        let n = rest.len() as int;
        how_wide_names_are(rest);
        assert forall|i: int| 0 <= i < servers.len() implies vstd::utf8::encode_utf8(
            (#[trigger] servers[i]).name@,
        ).len() <= name_width(servers) by {
            if i < n {
                assert(rest[i] == servers[i]);
            }
        }
        if name_width(servers) == name_width(rest) {
            if name_width(rest) != 4 {
                let i = choose|i: int|
                    0 <= i < rest.len() && vstd::utf8::encode_utf8(
                        (#[trigger] rest[i]).name@,
                    ).len() == name_width(rest);
                assert(servers[i] == rest[i]);
            }
        } else {
            assert(servers[n] == servers.last());
        }
    }
}

fn widest_name(servers: &Vec<ServerSummary>) -> (r: usize)
    ensures
        r == name_width(servers@),
{
    let mut w: usize = 4;
    let mut i: usize = 0;
    assert(servers@.take(0) =~= Seq::<ServerSummary>::empty());
    while i < servers.len()
        invariant
            i <= servers@.len(),
            w == name_width(servers@.take(i as int)),
        decreases servers@.len() - i,
    {
        assert(servers@.take(i + 1).drop_last() =~= servers@.take(i as int));
        let n: usize = servers[i].name.as_str().as_bytes().len();
        if n > w {
            w = n;
        }
        i = i + 1;
    }
    assert(servers@.take(servers@.len() as int) =~= servers@);
    w
}

/// The line of a server in the table.
pub open spec fn row(s: ServerSummary, width: nat) -> Seq<char> {
    let ip = net::dotted(s.virtual_ip);
    padded(s.name@, width) + "  "@ + padded(ip, 15) + "  ssh user@"@ + ip + "   ("@ + s.addr@
        + ")\n"@
}

/// The lines of the first `n` servers.
pub open spec fn rows(servers: Seq<ServerSummary>, width: nat, n: int) -> Seq<char>
    decreases n,
{
    if n <= 0 {
        Seq::empty()
    } else {
        rows(servers, width, n - 1) + row(servers[n - 1], width)
    }
}

/// The table of servers.
pub open spec fn table_text(s: Summary) -> Seq<char> {
    let width = name_width(s.servers@);
    "tun device hyperion0 at "@ + net::dotted(s.tun_addr) + "\n"@ + if s.servers@.len() == 0 {
        "(no servers — add one: hyperion-client add-server <name> <host:port> <pubkey>)\n"@
    } else {
        padded("name"@, width) + "  "@ + padded("fake ip"@, 15) + "  reach it at\n"@ + rows(
            s.servers@,
            width,
            s.servers@.len() as int,
        )
    }
}

/// The table has a line for every server, and the line says its name, the virtual address that it is
/// reached at, and its own address.
pub proof fn every_server_is_in_the_table(s: Summary, i: int)
    requires
        0 <= i < s.servers@.len(),
    ensures
        ({
            let e = s.servers@[i];
            let ip = net::dotted(e.virtual_ip);
            let width = name_width(s.servers@);
            text::contains_text(
                table_text(s),
                padded(e.name@, width) + "  "@ + padded(ip, 15) + "  ssh user@"@ + ip + "   ("@
                    + e.addr@ + ")\n"@,
            )
        }),
        text::contains_text(table_text(s), net::dotted(s.tun_addr)),
{
    let width = name_width(s.servers@);
    let n = s.servers@.len() as int;
    let start = "tun device hyperion0 at "@;
    let head = padded("name"@, width) + "  "@ + padded("fake ip"@, 15) + "  reach it at\n"@;
    let all = rows(s.servers@, width, n);
    rows_hold(s.servers@, width, n, i);
    let r = row(s.servers@[i], width);
    text::held_between(all, r);
    let (a, b) = choose|a: Seq<char>, b: Seq<char>| all == #[trigger] (a + r + b);
    let before = start + net::dotted(s.tun_addr) + "\n"@ + head + a;
    assert(table_text(s) =~= before + r + b);
    text::held_in_the_middle(before, r, b);
    text::held_in_the_middle(start, net::dotted(s.tun_addr), "\n"@ + (head + all));
    assert(table_text(s) =~= start + net::dotted(s.tun_addr) + ("\n"@ + (head + all)));
}

proof fn rows_hold(servers: Seq<ServerSummary>, width: nat, n: int, i: int)
    requires
        0 <= i < n,
    ensures
        text::contains_text(rows(servers, width, n), row(servers[i], width)),
    decreases n,
{
    let before = rows(servers, width, n - 1);
    let last = row(servers[n - 1], width);
    if i < n - 1 {
        rows_hold(servers, width, n - 1, i);
        text::held_as_it_goes_on(before, row(servers[i], width), last);
    } else {
        text::held_as_it_goes_on(before, last, last);
    }
}

fn push_row(out: &mut String, s: &ServerSummary, width: usize)
    ensures
        final(out)@ == old(out)@ + row(*s, width as nat),
{
    let ghost before = out@;
    let ip = s.virtual_ip.to_text();
    push_padded(out, s.name.as_str(), width);
    out.append("  ");
    push_padded(out, ip.as_str(), 15);
    out.append("  ssh user@");
    out.append(ip.as_str());
    out.append("   (");
    out.append(s.addr.as_str());
    out.append(")\n");
    assert(out@ =~= before + row(*s, width as nat));
}

/// The table of servers.
pub fn table(s: &Summary) -> (r: String)
    ensures
        r@ == table_text(*s),
{
    let mut out: String = "tun device hyperion0 at ".to_owned();
    let ip = s.tun_addr.to_text();
    out.append(ip.as_str());
    out.append("\n");
    if s.servers.len() == 0 {
        out.append(
            "(no servers — add one: hyperion-client add-server <name> <host:port> <pubkey>)\n",
        );
        return out;
    }
    let width: usize = widest_name(&s.servers);
    push_padded(&mut out, "name", width);
    out.append("  ");
    push_padded(&mut out, "fake ip", 15);
    out.append("  reach it at\n");
    let ghost head = out@;
    let mut i: usize = 0;
    assert(head + rows(s.servers@, width as nat, 0) =~= head);
    while i < s.servers.len()
        invariant
            i <= s.servers@.len(),
            out@ == head + rows(s.servers@, width as nat, i as int),
        decreases s.servers@.len() - i,
    {
        push_row(&mut out, &s.servers[i], width);
        assert(out@ =~= head + rows(s.servers@, width as nat, i + 1));
        i = i + 1;
    }
    assert(out@ =~= table_text(*s));
    out
}

/// What is said once the background process is up.
pub fn up_banner(s: &Summary, pid: u32, log_path: &str) -> (r: String)
    ensures
        r@ == "hyperion up (pid "@ + text::decimal(pid as nat)
            + ") — tunnels establishing in the background.\n\n"@ + table_text(*s)
            + "\nstop with: hyperion-client down\nlogs:      "@ + log_path@ + "\n"@,
{
    let mut out: String = "hyperion up (pid ".to_owned();
    text::push_decimal(&mut out, pid as u64);
    out.append(") — tunnels establishing in the background.\n\n");
    let t = table(s);
    out.append(t.as_str());
    out.append("\nstop with: hyperion-client down\nlogs:      ");
    out.append(log_path);
    out.append("\n");
    out
}

/// What is said of the state: the process that runs, if any, and the configuration, if there is
/// one.
#[verifier::spinoff_prover]
#[verifier::rlimit(40)]
pub fn status_text(running: Option<u32>, summary: Option<&Summary>) -> (r: String)
    ensures
        r@ == (match running {
            Some(pid) => "hyperion: UP (pid "@ + text::decimal(pid as nat) + ")\n"@,
            None => "hyperion: down\n"@,
        }) + (match summary {
            Some(s) => table_text(*s),
            None => "no config yet — run `hyperion-client init`\n"@,
        }),
{
    let mut out = String::new();
    match running {
        Some(pid) => {
            out.append("hyperion: UP (pid ");
            text::push_decimal(&mut out, pid as u64);
            out.append(")\n");
            assert(out@ =~= "hyperion: UP (pid "@ + text::decimal(pid as nat) + ")\n"@);
        },
        None => {
            out.append("hyperion: down\n");
            assert(out@ =~= "hyperion: down\n"@);
        },
    }
    match summary {
        Some(s) => {
            let t = table(s);
            out.append(t.as_str());
        },
        None => {
            out.append("no config yet — run `hyperion-client init`\n");
        },
    }
    out
}

/// How to go down, and what is said of it.
pub fn down(pid: Option<u32>, alive: bool, name_matches: bool) -> (r: (common::StopPlan, String))
    ensures
        r.0 == (match pid {
            None => common::StopPlan::NotRunning,
            Some(p) => if alive && name_matches {
                common::StopPlan::Kill(p)
            } else {
                common::StopPlan::Stale(p)
            },
        }),
        r.1@ == common::stop_message(r.0, "hyperion"@),
{
    let plan = common::stop_plan(pid, alive, name_matches);
    let said = plan.message("hyperion");
    (plan, said)
}

/// Why forwards cannot be set up.
pub enum ForwardError {
    /// A `-L` argument cannot be read.
    Argument(Failure),
    /// There is nothing to forward.
    Nothing,
    /// This is the first local address that comes again.
    Duplicate(SocketAddr),
}

/// The forwards of the first `n` `-L` arguments.
pub open spec fn extra_forwards(specs: Seq<String>, n: int) -> Result<
    Seq<config::ForwardView>,
    Seq<Seq<char>>,
>
    decreases n,
{
    if n <= 0 {
        Ok(Seq::empty())
    } else {
        match extra_forwards(specs, n - 1) {
            Err(e) => Err(e),
            Ok(before) => match config::forward_of(specs[n - 1]@) {
                Err(e) => Err(e),
                Ok(f) => Ok(before.push(f)),
            },
        }
    }
}

proof fn extra_forwards_fails_early(specs: Seq<String>, i: int, n: int)
    requires
        0 <= i <= n,
        extra_forwards(specs, i) is Err,
    ensures
        extra_forwards(specs, n) == extra_forwards(specs, i),
    decreases n - i,
{
    if i < n {
        extra_forwards_fails_early(specs, i + 1, n);
    }
}

/// The forwards of `-L` arguments are those of each argument, in order; one argument that is no
/// forward is a failure of all.
pub proof fn every_argument_counts(specs: Seq<String>, n: int)
    requires
        0 <= n <= specs.len(),
    ensures
        match extra_forwards(specs, n) {
            Ok(all) => all.len() == n && forall|i: int|
                0 <= i < n ==> config::forward_of((#[trigger] specs[i])@) == Ok::<
                    config::ForwardView,
                    Seq<Seq<char>>,
                >(all[i]),
            Err(e) => exists|i: int|
                0 <= i < n && config::forward_of((#[trigger] specs[i])@) == Err::<
                    config::ForwardView,
                    Seq<Seq<char>>,
                >(e),
        },
    decreases n,
{
    if n > 0 {
        every_argument_counts(specs, n - 1);
        if extra_forwards(specs, n) is Err && extra_forwards(specs, n - 1) is Ok {
            assert(config::forward_of(specs[n - 1]@) is Err);
        }
    }
}

/// The forwards to set up: those of the configuration, then those of the `-L` arguments. There must
/// be one, and no two may have the same local address.
#[verifier::spinoff_prover]
#[verifier::rlimit(40)]
pub fn plan_forwards(configured: Vec<ForwardEntry>, specs: &[String]) -> (r: Result<
    Vec<ForwardEntry>,
    ForwardError,
>)
    ensures
        match extra_forwards(specs@, specs@.len() as int) {
            Err(e) => r matches Err(ForwardError::Argument(f)) && f@ == e,
            Ok(extra) => {
                let all = config::forward_views(configured@) + extra;
                match r {
                    Ok(v) => config::forward_views(v@) == all && all.len() > 0 && forall|
                        i: int,
                        j: int,
                    |
                        0 <= i < j < all.len() ==> (#[trigger] all[i]).local != (
                        #[trigger] all[j]).local,
                    Err(ForwardError::Nothing) => all.len() == 0,
                    Err(ForwardError::Duplicate(a)) => config::first_repeated(all, a),
                    Err(ForwardError::Argument(_)) => false,
                }
            },
        },
{
    let mut all = configured;
    let ghost own = config::forward_views(all@);
    let mut i: usize = 0;
    assert(own + Seq::<config::ForwardView>::empty() =~= own);
    while i < specs.len()
        invariant
            i <= specs@.len(),
            extra_forwards(specs@, i as int) is Ok,
            config::forward_views(all@) == own + extra_forwards(specs@, i as int)->Ok_0,
        decreases specs@.len() - i,
    {
        let ghost before = config::forward_views(all@);
        match config::parse_forward_spec(specs[i].as_str()) {
            Ok(f) => {
                let ghost view = f@;
                all.push(f);
                assert(config::forward_views(all@) =~= before.push(view));
                assert(config::forward_views(all@) =~= own + extra_forwards(
                    specs@,
                    i + 1,
                )->Ok_0);
            },
            Err(e) => {
                proof {
                    extra_forwards_fails_early(specs@, i + 1, specs@.len() as int);
                }
                return Err(ForwardError::Argument(e));
            },
        }
        i = i + 1;
    }
    let ghost views = config::forward_views(all@);
    assert(forall|k: int| 0 <= k < all@.len() ==> views[k].local == (#[trigger] all@[k]).local);
    if all.len() == 0 {
        return Err(ForwardError::Nothing);
    }
    match config::check_duplicate_locals(all.as_slice()) {
        Ok(_) => {
            assert forall|a: int, b: int| 0 <= a < b < views.len() implies (
            #[trigger] views[a]).local != (#[trigger] views[b]).local by {
                assert(all@[a].local != all@[b].local);
            }
            Ok(all)
        },
        Err(a) => Err(ForwardError::Duplicate(a)),
    }
}

/// What became of a connection check.
pub enum CheckOutcome {
    Connected,
    /// It failed, with this text.
    Failed(String),
    TimedOut,
}

/// What is said of a connection check.
pub open spec fn check_text(o: CheckOutcome) -> Seq<char> {
    match o {
        CheckOutcome::Connected => "ok (knock + handshake)"@,
        CheckOutcome::Failed(e) => "FAIL: "@ + e@,
        CheckOutcome::TimedOut => "FAIL: timed out"@,
    }
}

/// A check is told to be in order exactly if it connected; else it is told to have failed, and why.
pub proof fn what_is_said_of_a_check(o: CheckOutcome)
    ensures
        o is Connected <==> check_text(o) == "ok (knock + handshake)"@,
        !(o is Connected) ==> "FAIL: "@.is_prefix_of(check_text(o)),
        o matches CheckOutcome::Failed(e) ==> check_text(o) == "FAIL: "@ + e@,
        o is TimedOut ==> check_text(o) == "FAIL: timed out"@,
{
    reveal_strlit("ok (knock + handshake)");
    reveal_strlit("FAIL: ");
    reveal_strlit("FAIL: timed out");
    let fail = "FAIL: "@;
    assert("FAIL: timed out"@.take(6) =~= fail);
    assert(fail[0] == 'F' && "ok (knock + handshake)"@[0] == 'o' && "FAIL: timed out"@[0] == 'F');
    if let CheckOutcome::Failed(e) = o {
        assert((fail + e@).take(6) =~= fail);
        assert((fail + e@)[0] == 'F');
    }
}

impl CheckOutcome {
    /// What is said of this outcome.
    pub fn message(&self) -> (r: String)
        ensures
            r@ == check_text(*self),
    {
        match self {
            CheckOutcome::Connected => "ok (knock + handshake)".to_owned(),
            CheckOutcome::Failed(e) => text::concat2("FAIL: ", e.as_str()),
            CheckOutcome::TimedOut => "FAIL: timed out".to_owned(),
        }
    }
}

/// The verdict over all servers: there must be one, and every check must have succeeded.
pub fn doctor_verdict(outcomes: &[CheckOutcome]) -> (r: Result<(), Failure>)
    ensures
        failure::outcome(r) == (if outcomes@.len() == 0 {
            Err(seq!["no servers configured"@])
        } else if forall|i: int|
            0 <= i < outcomes@.len() ==> (#[trigger] outcomes@[i]) is Connected {
            Ok(())
        } else {
            Err(seq!["one or more servers failed the connectivity check"@])
        }),
{
    if outcomes.len() == 0 {
        return Err(Failure::of("no servers configured"));
    }
    let mut i: usize = 0;
    while i < outcomes.len()
        invariant
            0 < outcomes@.len(),
            i <= outcomes@.len(),
            forall|j: int| 0 <= j < i ==> (#[trigger] outcomes@[j]) is Connected,
        decreases outcomes@.len() - i,
    {
        match &outcomes[i] {
            CheckOutcome::Connected => {},
            _ => {
                assert(!(outcomes@[i as int] is Connected));
                return Err(Failure::of("one or more servers failed the connectivity check"));
            },
        }
        i = i + 1;
    }
    Ok(())
}

/// What is said after initializing.
pub fn init_report(path: &str, admin_pubkey: &str, salt: &str) -> (r: String)
    ensures
        r@ == "hyperion initialized.\n\nconfig:  "@ + path@
            + "\n\nadmin public key (allow-list this on every server):\n  "@ + admin_pubkey@
            + "\n\nshared salt (put the SAME salt in every server's [key].salt):\n  "@ + salt@
            + "\n\nnext steps:\n  1. on each Linux server: run the server, allow-list the admin key above\n  2. here: hyperion-client add-server <name> <host:port> <server_pubkey>\n  3. hyperion-client up\n"@,
{
    let mut out: String = "hyperion initialized.\n\nconfig:  ".to_owned();
    out.append(path);
    out.append("\n\nadmin public key (allow-list this on every server):\n  ");
    out.append(admin_pubkey);
    out.append("\n\nshared salt (put the SAME salt in every server's [key].salt):\n  ");
    out.append(salt);
    out.append(
        "\n\nnext steps:\n  1. on each Linux server: run the server, allow-list the admin key above\n  2. here: hyperion-client add-server <name> <host:port> <server_pubkey>\n  3. hyperion-client up\n",
    );
    out
}

/// What is said after a server has been added.
pub fn added_report(name: &str, vip: net::Ipv4Addr) -> (r: String)
    ensures
        r@ == "added server '"@ + name@ + "' — fake IP "@ + net::dotted(vip)
            + "\nreach it (once `up`): ssh user@"@ + net::dotted(vip) + "\n"@,
{
    let ip = vip.to_text();
    let mut out: String = "added server '".to_owned();
    out.append(name);
    out.append("' — fake IP ");
    out.append(ip.as_str());
    out.append("\nreach it (once `up`): ssh user@");
    out.append(ip.as_str());
    out.append("\n");
    out
}

} // verus!
