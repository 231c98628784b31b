//! The shell script that routes server addresses through the TUN device.
use crate::text;
use vstd::prelude::*;

verus! {

broadcast use vstd::seq_lib::group_seq_properties;

/// What the script is for. The addresses are given as texts.
pub struct RouteParams<'a> {
    pub server_ips: &'a [String],
    pub dev: &'a str,
    pub mark: u32,
    pub table: u32,
    pub priority: u32,
    pub down: bool,
}

/// A command for the address with index `ip`.
pub struct Command {
    /// A rule, or else a route.
    pub rule: bool,
    /// Delete it, or else add it.
    pub delete: bool,
    pub ip: int,
}

/// The commands for the first `n` addresses: the route then the rule when they are added, the rule
/// then the route when they are deleted.
pub open spec fn commands(n: int, down: bool) -> Seq<Command>
    decreases n,
{
    if n <= 0 {
        Seq::empty()
    } else {
        commands(n - 1, down).push(Command { rule: down, delete: down, ip: n - 1 }).push(
            Command { rule: !down, delete: down, ip: n - 1 },
        )
    }
}

pub open spec fn verb(delete: bool) -> Seq<char> {
    if delete {
        "del"@
    } else {
        "add"@
    }
}

/// A command's line.
pub open spec fn line(p: RouteParams, c: Command) -> Seq<char> {
    let ip = p.server_ips@[c.ip]@;
    let table = text::decimal(p.table as nat);
    if c.rule {
        "ip rule "@ + verb(c.delete) + " to "@ + ip + "/32 not fwmark 0x"@ + text::hexadecimal(
            p.mark as nat,
        ) + " lookup "@ + table + " priority "@ + text::decimal(p.priority as nat) + "\n"@
    } else {
        "ip route "@ + verb(c.delete) + " "@ + ip + "/32 dev "@ + p.dev@ + " table "@ + table
            + "\n"@
    }
}

/// The lines of a series of commands.
pub open spec fn lines(p: RouteParams, cs: Seq<Command>) -> Seq<char>
    decreases cs.len(),
{
    if cs.len() == 0 {
        Seq::empty()
    } else {
        lines(p, cs.drop_last()) + line(p, cs.last())
    }
}

/// What stands above the commands.
pub open spec fn header(p: RouteParams) -> Seq<char> {
    "#!/bin/sh\nset -e\n"@ + if p.down {
        "# Hyperion L3 TUN routing — teardown\n"@
    } else {
        "# Hyperion L3 TUN routing — route each server IP via '"@ + p.dev@
            + "', except the tunnel's own\n# (SO_MARK 0x"@ + text::hexadecimal(p.mark as nat)
            + ") sockets, which keep the physical route.\n"@
    }
}

/// The script.
pub open spec fn script_text(p: RouteParams) -> Seq<char> {
    header(p) + lines(p, commands(p.server_ips@.len() as int, p.down))
}

/// The command that undoes another.
pub open spec fn inverse(c: Command) -> Command {
    Command { delete: !c.delete, ..c }
}

/// The script that takes routing down deletes what the script that sets it up adds, and nothing
/// else.
pub proof fn teardown_undoes_setup(n: int)
    ensures
        forall|c: Command| #[trigger]
            commands(n, false).contains(c) ==> !c.delete && commands(n, true).contains(inverse(c)),
        forall|c: Command| #[trigger]
            commands(n, true).contains(c) ==> c.delete && commands(n, false).contains(inverse(c)),
    decreases n,
{
    if n > 0 {
        teardown_undoes_setup(n - 1);
        commands_step(n, false);
        commands_step(n, true);
    }
}

proof fn commands_step(n: int, down: bool)
    requires
        n > 0,
    ensures
        forall|c: Command| #[trigger]
            commands(n, down).contains(c) <==> commands(n - 1, down).contains(c) || c == (Command {
                rule: down,
                delete: down,
                ip: n - 1,
            }) || c == (Command { rule: !down, delete: down, ip: n - 1 }),
{
    let before = commands(n - 1, down);
    let all = commands(n, down);
    let a = Command { rule: down, delete: down, ip: n - 1 };
    let b = Command { rule: !down, delete: down, ip: n - 1 };
    assert(all == before.push(a).push(b));
    let k = before.len() as int;
    assert(all[k] == a && all[k + 1] == b);
    assert forall|c: Command| before.contains(c) implies #[trigger] all.contains(c) by {
        let i = choose|i: int| 0 <= i < before.len() && before[i] == c;
        assert(all[i] == c);
    }
    assert forall|c: Command| #[trigger] all.contains(c) implies before.contains(c) || c == a || c
        == b by {
        let i = choose|i: int| 0 <= i < all.len() && all[i] == c;
        if i < k {
            assert(before[i] == c);
        }
    }
}

proof fn lines_push(p: RouteParams, cs: Seq<Command>, c: Command)
    ensures
        lines(p, cs.push(c)) == lines(p, cs) + line(p, c),
{
    assert(cs.push(c).drop_last() =~= cs);
    assert(cs.push(c).last() == c);
}

/// Every address has its two commands, in the order of the addresses: when routing is set up, its
/// route is added and then its rule; when routing is taken down, its rule is deleted and then its
/// route. There are no other commands.
pub proof fn every_address_has_its_commands(n: int, down: bool, i: int)
    requires
        0 <= i < n,
    ensures
        commands(n, down).len() == 2 * n,
        commands(n, down)[2 * i] == (Command { rule: down, delete: down, ip: i }),
        commands(n, down)[2 * i + 1] == (Command { rule: !down, delete: down, ip: i }),
    decreases n,
{
    if n > 1 {
        every_address_has_its_commands(n - 1, down, if i < n - 1 { i } else { 0 });
    } else {
        assert(commands(0, down).len() == 0);
    }
}

/// The route of an address goes over the device, into the table.
pub proof fn what_a_route_says(p: RouteParams, i: int, delete: bool)
    ensures
        line(p, (Command { rule: false, delete, ip: i })) == "ip route "@ + (if delete {
            "del"@
        } else {
            "add"@
        }) + " "@ + p.server_ips@[i]@ + "/32 dev "@ + p.dev@ + " table "@ + text::decimal(
            p.table as nat,
        ) + "\n"@,
{
}

/// The rule of an address sends what does not carry the mark to the table, with the priority.
pub proof fn what_a_rule_says(p: RouteParams, i: int, delete: bool)
    ensures
        line(p, (Command { rule: true, delete, ip: i })) == "ip rule "@ + (if delete {
            "del"@
        } else {
            "add"@
        }) + " to "@ + p.server_ips@[i]@ + "/32 not fwmark 0x"@ + text::hexadecimal(p.mark as nat)
            + " lookup "@ + text::decimal(p.table as nat) + " priority "@ + text::decimal(
            p.priority as nat,
        ) + "\n"@,
{
}

/// The lines of one more address come behind those of the others.
proof fn lines_of_one_more(p: RouteParams, n: int)
    requires
        n > 0,
    ensures
        lines(p, commands(n, p.down)) == lines(p, commands(n - 1, p.down)) + line(
            p,
            (Command { rule: p.down, delete: p.down, ip: n - 1 }),
        ) + line(p, (Command { rule: !p.down, delete: p.down, ip: n - 1 })),
{
    let before = commands(n - 1, p.down);
    let a = Command { rule: p.down, delete: p.down, ip: n - 1 };
    let b = Command { rule: !p.down, delete: p.down, ip: n - 1 };
    lines_push(p, before, a);
    lines_push(p, before.push(a), b);
}

/// The script holds the two lines of every address: the route and then the rule where routing is set
/// up, the rule and then the route where it is taken down. Around them stand the lines of the others.
pub proof fn every_address_has_its_lines(p: RouteParams, i: int) -> (around: (Seq<char>, Seq<char>))
    requires
        0 <= i < p.server_ips@.len(),
    ensures
        ({
            let route = line(p, (Command { rule: false, delete: p.down, ip: i }));
            let rule = line(p, (Command { rule: true, delete: p.down, ip: i }));
            script_text(p) == around.0 + (if p.down {
                rule + route
            } else {
                route + rule
            }) + around.1
        }),
{
    let n = p.server_ips@.len() as int;
    let rest = lines_behind(p, i + 1, n);
    lines_of_one_more(p, i + 1);
    let front = header(p) + lines(p, commands(i, p.down));
    let first = line(p, Command { rule: p.down, delete: p.down, ip: i });
    let second = line(p, Command { rule: !p.down, delete: p.down, ip: i });
    assert(script_text(p) =~= front + (first + second) + rest);
    (front, rest)
}

proof fn lines_behind(p: RouteParams, i: int, n: int) -> (rest: Seq<char>)
    requires
        0 <= i <= n,
    ensures
        lines(p, commands(n, p.down)) == lines(p, commands(i, p.down)) + rest,
    decreases n - i,
{
    if i == n {
        assert(lines(p, commands(n, p.down)) =~= lines(p, commands(i, p.down))
            + Seq::<char>::empty());
        Seq::empty()
    } else {
        let before = lines_behind(p, i, n - 1);
        lines_of_one_more(p, n);
        let rest = before + (line(p, Command { rule: p.down, delete: p.down, ip: n - 1 }) + line(
            p,
            Command { rule: !p.down, delete: p.down, ip: n - 1 },
        ));
        assert(lines(p, commands(n, p.down)) =~= lines(p, commands(i, p.down)) + rest);
        rest
    }
}

/// The script is one for the shell that stops at the first failure; it holds nothing but its heading
/// where there are no addresses.
pub proof fn what_the_script_begins_with(p: RouteParams)
    ensures
        "#!/bin/sh\nset -e\n"@.is_prefix_of(script_text(p)),
        p.server_ips@.len() == 0 ==> script_text(p) == header(p),
{
    let start = "#!/bin/sh\nset -e\n"@;
    assert(script_text(p).take(start.len() as int) =~= start);
    assert(lines(p, commands(0, p.down)) =~= Seq::<char>::empty());
    assert(header(p) + Seq::<char>::empty() =~= header(p));
}

fn push_line(out: &mut String, p: &RouteParams, rule: bool, i: usize)
    requires
        i < p.server_ips@.len(),
    ensures
        final(out)@ == old(out)@ + line(*p, (Command { rule, delete: p.down, ip: i as int })),
{
    let ghost before = out@;
    let v = if p.down {
        "del"
    } else {
        "add"
    };
    if rule {
        out.append("ip rule ");
        out.append(v);
        out.append(" to ");
        out.append(p.server_ips[i].as_str());
        out.append("/32 not fwmark 0x");
        text::push_hexadecimal(out, p.mark as u64);
        out.append(" lookup ");
        text::push_decimal(out, p.table as u64);
        out.append(" priority ");
        text::push_decimal(out, p.priority as u64);
        out.append("\n");
    } else {
        out.append("ip route ");
        out.append(v);
        out.append(" ");
        out.append(p.server_ips[i].as_str());
        out.append("/32 dev ");
        out.append(p.dev);
        out.append(" table ");
        text::push_decimal(out, p.table as u64);
        out.append("\n");
    }
    assert(out@ =~= before + line(*p, Command { rule, delete: p.down, ip: i as int }));
}

/// The script that sets routing up or takes it down.
pub fn script(p: &RouteParams) -> (r: String)
    ensures
        r@ == script_text(*p),
{
    let mut out: String = "#!/bin/sh\nset -e\n".to_owned();
    if p.down {
        out.append("# Hyperion L3 TUN routing — teardown\n");
    } else {
        out.append("# Hyperion L3 TUN routing — route each server IP via '");
        out.append(p.dev);
        out.append("', except the tunnel's own\n# (SO_MARK 0x");
        text::push_hexadecimal(&mut out, p.mark as u64);
        out.append(") sockets, which keep the physical route.\n");
    }
    assert(out@ =~= header(*p));
    let mut i: usize = 0;
    assert(lines(*p, commands(0, p.down)) =~= Seq::<char>::empty());
    assert(header(*p) + Seq::<char>::empty() =~= header(*p));
    while i < p.server_ips.len()
        invariant
            i <= p.server_ips@.len(),
            out@ == header(*p) + lines(*p, commands(i as int, p.down)),
        decreases p.server_ips@.len() - i,
    {
        let ghost before = commands(i as int, p.down);
        let ghost first = Command { rule: p.down, delete: p.down, ip: i as int };
        let ghost second = Command { rule: !p.down, delete: p.down, ip: i as int };
        push_line(&mut out, p, p.down, i);
        push_line(&mut out, p, !p.down, i);
        proof {
            assert(commands(i + 1, p.down) == before.push(first).push(second));
            lines_push(*p, before, first);
            lines_push(*p, before.push(first), second);
            assert(out@ =~= header(*p) + lines(*p, commands(i + 1, p.down)));
        }
        i = i + 1;
    }
    out
}

} // verus!
