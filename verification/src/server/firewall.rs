//! What the server tells nftables.
use crate::net::{self, Ipv4Addr};
use crate::text;
use vstd::prelude::*;

verus! {

broadcast use vstd::seq_lib::group_seq_properties;

/// The set of addresses that may open the tunnel port, and for how long an address stays in it.
pub struct Firewall {
    table: String,
    set: String,
    ttl_secs: u64,
}

impl Clone for Firewall {
    fn clone(&self) -> (r: Self)
        ensures
            r.table() == self.table(),
            r.set() == self.set(),
            r.ttl_secs() == self.ttl_secs(),
    {
        Firewall {
            table: self.table.clone(),
            set: self.set.clone(),
            ttl_secs: self.ttl_secs,
        }
    }
}

impl Firewall {
    pub closed spec fn table(&self) -> Seq<char> {
        self.table@
    }

    pub closed spec fn set(&self) -> Seq<char> {
        self.set@
    }

    pub closed spec fn ttl_secs(&self) -> u64 {
        self.ttl_secs
    }

    pub fn new(table: String, set: String, ttl_secs: u64) -> (r: Self)
        ensures
            r.table() == table@,
            r.set() == set@,
            r.ttl_secs() == ttl_secs,
    {
        Firewall { table, set, ttl_secs }
    }

    /// The arguments with which `nft` adds an address to the set.
    pub fn add_element_args(&self, ip: Ipv4Addr) -> (r: Vec<String>)
        ensures
            text::texts(r@) == seq![
                "add"@,
                "element"@,
                "inet"@,
                self.table(),
                self.set(),
                "{ "@ + net::dotted(ip) + " timeout "@ + text::decimal(self.ttl_secs() as nat)
                    + "s }"@,
            ],
    {
        let mut element: String = "{ ".to_owned();
        let t = ip.to_text();
        element.append(t.as_str());
        element.append(" timeout ");
        text::push_decimal(&mut element, self.ttl_secs);
        element.append("s }");
        let ghost last = element@;
        let mut args: Vec<String> = Vec::new();
        args.push("add".to_owned());
        args.push("element".to_owned());
        args.push("inet".to_owned());
        args.push(self.table.clone());
        args.push(self.set.clone());
        args.push(element);
        assert(text::texts(args@) =~= seq![
            "add"@,
            "element"@,
            "inet"@,
            self.table(),
            self.set(),
            last,
        ]);
        args
    }
}

/// The base ruleset: everything is dropped but established connections, the loopback device, and
/// the tunnel port for the addresses in the set.
pub open spec fn ruleset_text(table: Seq<char>, set: Seq<char>, tunnel_port: u16) -> Seq<char> {
    "table inet "@ + table + " {\n  set "@ + set
        + " { type ipv4_addr; flags timeout; }\n  chain input {\n    type filter hook input priority 0; policy drop;\n    ct state established,related accept\n    iif lo accept\n    ip saddr @"@
        + set + " tcp dport "@ + text::decimal(tunnel_port as nat) + " accept\n  }\n}\n"@
}

/// The base ruleset.
pub fn base_ruleset(table: &str, set: &str, tunnel_port: u16) -> (r: String)
    ensures
        r@ == ruleset_text(table@, set@, tunnel_port),
{
    let mut out: String = "table inet ".to_owned();
    out.append(table);
    out.append(" {\n  set ");
    out.append(set);
    out.append(
        " { type ipv4_addr; flags timeout; }\n  chain input {\n    type filter hook input priority 0; policy drop;\n    ct state established,related accept\n    iif lo accept\n    ip saddr @",
    );
    out.append(set);
    out.append(" tcp dport ");
    text::push_decimal(&mut out, tunnel_port as u64);
    out.append(" accept\n  }\n}\n");
    out
}

/// The base ruleset, line by line: a table with a set of addresses that time out, and a chain for
/// what comes in that drops all but what belongs to established connections, what comes over the
/// loopback device, and TCP to the tunnel port from the addresses in the set.
pub proof fn lines_of_the_ruleset(table: Seq<char>, set: Seq<char>, tunnel_port: u16)
    ensures
        ruleset_text(table, set, tunnel_port) == text::joined(
            seq![
                "table inet "@ + table + " {"@,
                "  set "@ + set + " { type ipv4_addr; flags timeout; }"@,
                "  chain input {"@,
                "    type filter hook input priority 0; policy drop;"@,
                "    ct state established,related accept"@,
                "    iif lo accept"@,
                "    ip saddr @"@ + set + " tcp dport "@ + text::decimal(tunnel_port as nat)
                    + " accept"@,
                "  }"@,
                "}"@,
                ""@,
            ],
            seq!['\n'],
        ),
{
    let nl = seq!['\n'];
    let l0 = "table inet "@ + table + " {"@;
    let l1 = "  set "@ + set + " { type ipv4_addr; flags timeout; }"@;
    let l2 = "  chain input {"@;
    let l3 = "    type filter hook input priority 0; policy drop;"@;
    let l4 = "    ct state established,related accept"@;
    let l5 = "    iif lo accept"@;
    let l6 = "    ip saddr @"@ + set + " tcp dport "@ + text::decimal(tunnel_port as nat)
        + " accept"@;
    let l7 = "  }"@;
    let l8 = "}"@;
    let l9 = ""@;
    joined_lines(l0, l1, l2, l3, l4, l5, l6, l7, l8, l9);
    literals_in_lines();
    let d = text::decimal(tunnel_port as nat);
    let m = " { type ipv4_addr; flags timeout; }"@;
    let q = "    ip saddr @"@;
    let t = " tcp dport "@;
    let e = " accept"@;
    let x0 = "table inet "@ + table;
    behind(x0, " {"@ + nl, "  set "@);
    behind(x0, " {"@, nl);
    let x1 = l0 + nl + "  set "@ + set;
    behind(l0 + nl, "  set "@ + set, m);
    behind(l0 + nl, "  set "@, set);
    behind(x1, m + nl + l2 + nl + l3 + nl + l4 + nl + l5 + nl, q);
    behind(x1, m + nl + l2 + nl + l3 + nl + l4 + nl + l5, nl);
    behind(x1, m + nl + l2 + nl + l3 + nl + l4 + nl, l5);
    behind(x1, m + nl + l2 + nl + l3 + nl + l4, nl);
    behind(x1, m + nl + l2 + nl + l3 + nl, l4);
    behind(x1, m + nl + l2 + nl + l3, nl);
    behind(x1, m + nl + l2 + nl, l3);
    behind(x1, m + nl + l2, nl);
    behind(x1, m + nl, l2);
    behind(x1, m, nl);
    let x2 = l0 + nl + l1 + nl + l2 + nl + l3 + nl + l4 + nl + l5 + nl;
    behind(x2, q + set + t + d, e);
    behind(x2, q + set + t, d);
    behind(x2, q + set, t);
    behind(x2, q, set);
    let x3 = x2 + q + set + t + d;
    behind(x3, e + nl + l7 + nl + l8 + nl, l9);
    behind(x3, e + nl + l7 + nl + l8, nl);
    behind(x3, e + nl + l7 + nl, l8);
    behind(x3, e + nl + l7, nl);
    behind(x3, e + nl, l7);
    behind(x3, e, nl);
}

/// Putting texts in a row does not depend on which two are put together first.
proof fn behind(x: Seq<char>, a: Seq<char>, b: Seq<char>)
    ensures
        x + (a + b) == x + a + b,
{
    assert(x + (a + b) =~= x + a + b);
}

/// The literals of the ruleset that hold more than one line.
proof fn literals_in_lines()
    ensures
        ({
            let nl = seq!['\n'];
            &&& " {\n  set "@ == " {"@ + nl + "  set "@
            &&& " { type ipv4_addr; flags timeout; }\n  chain input {\n    type filter hook input priority 0; policy drop;\n    ct state established,related accept\n    iif lo accept\n    ip saddr @"@
                == " { type ipv4_addr; flags timeout; }"@ + nl + "  chain input {"@ + nl
                + "    type filter hook input priority 0; policy drop;"@ + nl
                + "    ct state established,related accept"@ + nl + "    iif lo accept"@ + nl
                + "    ip saddr @"@
            &&& " accept\n  }\n}\n"@ == " accept"@ + nl + "  }"@ + nl + "}"@ + nl + ""@
        }),
{
    reveal_strlit(" {\n  set ");
    reveal_strlit(" {");
    reveal_strlit("  set ");
    reveal_strlit(
        " { type ipv4_addr; flags timeout; }\n  chain input {\n    type filter hook input priority 0; policy drop;\n    ct state established,related accept\n    iif lo accept\n    ip saddr @",
    );
    reveal_strlit(" { type ipv4_addr; flags timeout; }");
    reveal_strlit("  chain input {");
    reveal_strlit("    type filter hook input priority 0; policy drop;");
    reveal_strlit("    ct state established,related accept");
    reveal_strlit("    iif lo accept");
    reveal_strlit("    ip saddr @");
    reveal_strlit(" accept\n  }\n}\n");
    reveal_strlit(" accept");
    reveal_strlit("  }");
    reveal_strlit("}");
    reveal_strlit("");
    let nl = seq!['\n'];
    assert(" {\n  set "@ =~= " {"@ + nl + "  set "@);
    assert(" accept\n  }\n}\n"@ =~= " accept"@ + nl + "  }"@ + nl + "}"@ + nl + ""@);
    assert(" { type ipv4_addr; flags timeout; }\n  chain input {\n    type filter hook input priority 0; policy drop;\n    ct state established,related accept\n    iif lo accept\n    ip saddr @"@
        =~= " { type ipv4_addr; flags timeout; }"@ + nl + "  chain input {"@ + nl
        + "    type filter hook input priority 0; policy drop;"@ + nl
        + "    ct state established,related accept"@ + nl + "    iif lo accept"@ + nl
        + "    ip saddr @"@);
}

proof fn joined_lines(
    l0: Seq<char>,
    l1: Seq<char>,
    l2: Seq<char>,
    l3: Seq<char>,
    l4: Seq<char>,
    l5: Seq<char>,
    l6: Seq<char>,
    l7: Seq<char>,
    l8: Seq<char>,
    l9: Seq<char>,
)
    ensures
        ({
            let nl = seq!['\n'];
            text::joined(seq![l0, l1, l2, l3, l4, l5, l6, l7, l8, l9], nl) == l0 + nl + l1 + nl + l2
                + nl + l3 + nl + l4 + nl + l5 + nl + l6 + nl + l7 + nl + l8 + nl + l9
        }),
{
    let nl = seq!['\n'];
    text::joining_adds_a_piece(seq![l0], l1, nl);
    text::joining_adds_a_piece(seq![l0], l0, nl);
    text::joining_adds_a_piece(seq![l0, l1], l2, nl);
    text::joining_adds_a_piece(seq![l0, l1, l2], l3, nl);
    text::joining_adds_a_piece(seq![l0, l1, l2, l3], l4, nl);
    text::joining_adds_a_piece(seq![l0, l1, l2, l3, l4], l5, nl);
    text::joining_adds_a_piece(seq![l0, l1, l2, l3, l4, l5], l6, nl);
    text::joining_adds_a_piece(seq![l0, l1, l2, l3, l4, l5, l6], l7, nl);
    text::joining_adds_a_piece(seq![l0, l1, l2, l3, l4, l5, l6, l7], l8, nl);
    text::joining_adds_a_piece(seq![l0, l1, l2, l3, l4, l5, l6, l7, l8], l9, nl);
    assert(seq![l0].push(l1) =~= seq![l0, l1]);
    assert(seq![l0, l1].push(l2) =~= seq![l0, l1, l2]);
    assert(seq![l0, l1, l2].push(l3) =~= seq![l0, l1, l2, l3]);
    assert(seq![l0, l1, l2, l3].push(l4) =~= seq![l0, l1, l2, l3, l4]);
    assert(seq![l0, l1, l2, l3, l4].push(l5) =~= seq![l0, l1, l2, l3, l4, l5]);
    assert(seq![l0, l1, l2, l3, l4, l5].push(l6) =~= seq![l0, l1, l2, l3, l4, l5, l6]);
    assert(seq![l0, l1, l2, l3, l4, l5, l6].push(l7) =~= seq![l0, l1, l2, l3, l4, l5, l6, l7]);
    assert(seq![l0, l1, l2, l3, l4, l5, l6, l7].push(l8) =~= seq![
        l0, l1, l2, l3, l4, l5, l6, l7, l8,
    ]);
    assert(seq![l0, l1, l2, l3, l4, l5, l6, l7, l8].push(l9) =~= seq![
        l0, l1, l2, l3, l4, l5, l6, l7, l8, l9,
    ]);
}

} // verus!
