//! The admin's configuration: servers and forwards.
use crate::client::addresses::{
    self, addresses_in_use, assign_virtual_ip, parse_tun, resolve_virtual_ips, TunConfig,
};
use crate::common;
use crate::failure::{self, Failure};
use crate::net::{self, IpAddr, Ipv4Addr, SocketAddr};
use crate::secret;
use crate::text;
use crate::tunnel::client::{KnockSettings, TunnelParams};
use crate::tunnel::error;
use crate::tunnel::keys::{self, Keypair, PublicKey, SecretKey};
use crate::tunnel::psk::{self, Psk};
use crate::tunnel::{crypto, encoding};
use vstd::prelude::*;

verus! {

broadcast use {vstd::seq_lib::group_seq_properties, vstd::std_specs::hash::group_hash_axioms};

/// How many connections a server's pool holds when nothing is said.
pub const DEFAULT_POOL_SIZE: usize = 2;

/// The configuration file.
pub struct FileConfig {
    pub admin_static_key_file: String,
    pub pool_size: Option<usize>,
    pub key: Option<KeySection>,
    pub knock: KnockSection,
    pub tun: TunSection,
    pub server: Vec<ServerSection>,
    pub forward: Vec<ForwardSection>,
}

pub struct KeySection {
    pub source: String,
    pub env_var: Option<String>,
    pub value: Option<String>,
    pub passphrase_env: Option<String>,
    pub salt: Option<String>,
}

pub struct KnockSection {
    pub enabled: bool,
    pub port: Option<u16>,
}

pub struct TunSection {
    pub addr: String,
    pub prefix: u8,
    pub mtu: u16,
}

pub struct ServerSection {
    pub name: String,
    pub addr: String,
    pub server_pubkey: String,
    pub virtual_ip: Option<String>,
    pub key_env: Option<String>,
    pub key_value: Option<String>,
    pub pool_size: Option<usize>,
}

pub struct ForwardSection {
    pub local: String,
    pub server: String,
    pub remote_port: u16,
}

impl Default for KnockSection {
    fn default() -> (r: Self)
        ensures
            !r.enabled,
            r.port is None,
    {
        KnockSection { enabled: false, port: None }
    }
}

pub fn default_tun_addr() -> (r: String)
    ensures
        r@ == "10.99.0.1"@,
{
    "10.99.0.1".to_owned()
}

pub fn default_tun_prefix() -> (r: u8)
    ensures
        r == 24,
{
    24
}

pub fn default_tun_mtu() -> (r: u16)
    ensures
        r == 1420,
{
    1420
}

impl Default for TunSection {
    fn default() -> (r: Self)
        ensures
            r.addr@ == "10.99.0.1"@,
            r.prefix == 24,
            r.mtu == 1420,
    {
        TunSection { addr: default_tun_addr(), prefix: default_tun_prefix(), mtu: default_tun_mtu() }
    }
}

/// A server as it is used.
pub struct ServerEntry {
    pub name: String,
    pub addr: SocketAddr,
    pub virtual_ip: Ipv4Addr,
    pub params: TunnelParams,
    pub pool_size: usize,
}

/// A server as it is used, its texts and keys as sequences.
pub struct EntryView {
    pub name: Seq<char>,
    pub addr: SocketAddr,
    pub virtual_ip: Ipv4Addr,
    pub static_secret: Seq<u8>,
    pub server_pubkey: Seq<u8>,
    pub psk: Seq<u8>,
    pub knock: Option<KnockSettings>,
    pub fwmark: Option<u32>,
    pub pool_size: usize,
}

impl View for ServerEntry {
    type V = EntryView;

    open spec fn view(&self) -> EntryView {
        EntryView {
            name: self.name@,
            addr: self.addr,
            virtual_ip: self.virtual_ip,
            static_secret: self.params.static_secret@,
            server_pubkey: self.params.server_pubkey@,
            psk: self.params.psk@,
            knock: self.params.knock,
            fwmark: self.params.fwmark,
            pool_size: self.pool_size,
        }
    }
}

/// The views of a list of entries.
pub open spec fn entries(v: Seq<ServerEntry>) -> Seq<EntryView> {
    v.map_values(|e: ServerEntry| e@)
}

/// A local address that is forwarded to a port of a server.
pub struct ForwardEntry {
    pub local: SocketAddr,
    pub server: String,
    pub remote_port: u16,
}

/// A forward, its server's name as a sequence.
pub struct ForwardView {
    pub local: SocketAddr,
    pub server: Seq<char>,
    pub remote_port: u16,
}

impl View for ForwardEntry {
    type V = ForwardView;

    open spec fn view(&self) -> ForwardView {
        ForwardView { local: self.local, server: self.server@, remote_port: self.remote_port }
    }
}

/// The views of a list of forwards.
pub open spec fn forward_views(v: Seq<ForwardEntry>) -> Seq<ForwardView> {
    v.map_values(|f: ForwardEntry| f@)
}

/// A configuration that can be used.
pub struct LoadedClient {
    pub servers: Vec<ServerEntry>,
    pub forwards: Vec<ForwardEntry>,
    pub tun: TunConfig,
}

/// What is seen of a server's entry and of a forward is what they hold, and of lists of them, what
/// each one holds, in order.
pub proof fn entries_are_seen_whole(servers: Seq<ServerEntry>, forwards: Seq<ForwardEntry>, i: int)
    ensures
        entries(servers).len() == servers.len(),
        forward_views(forwards).len() == forwards.len(),
        0 <= i < servers.len() ==> ({
            let seen = entries(servers)[i];
            let e = servers[i];
            &&& seen.name == e.name@ && seen.addr == e.addr && seen.virtual_ip == e.virtual_ip
            &&& seen.static_secret == e.params.static_secret@ && seen.server_pubkey
                == e.params.server_pubkey@ && seen.psk == e.params.psk@
            &&& seen.knock == e.params.knock && seen.fwmark == e.params.fwmark && seen.pool_size
                == e.pool_size
        }),
        0 <= i < forwards.len() ==> ({
            let seen = forward_views(forwards)[i];
            let f = forwards[i];
            seen.local == f.local && seen.server == f.server@ && seen.remote_port == f.remote_port
        }),
{
}

/// What a section's texts stand for outside: the address, or why the text is none, and the value of
/// the environment variable that the section names, or why there is none. Where the section names
/// no variable, nothing reads the latter.
pub struct ServerInput {
    pub addr: Result<SocketAddr, String>,
    pub key_env: Result<String, String>,
}

/// A value from outside, with its text, or why there is none, as sequences.
pub open spec fn given_text(r: Result<String, String>) -> Result<Seq<char>, Seq<char>> {
    match r {
        Ok(t) => Ok(t@),
        Err(why) => Err(why@),
    }
}

/// The pre-shared key of a server: from the variable that its section names, else from the section
/// itself, else the default one.
pub open spec fn psk_for(
    s: ServerSection,
    default_psk: Option<Seq<u8>>,
    env: Result<Seq<char>, Seq<char>>,
) -> Result<Seq<u8>, Seq<Seq<char>>> {
    match (s.key_env, s.key_value, default_psk) {
        (Some(var), _, _) => match env {
            Err(why) => Err(seq![why, "env var "@ + var@ + " not set"@]),
            Ok(b64) => secret::psk_text(b64),
        },
        (None, Some(value), _) => secret::psk_text(value@),
        (None, None, Some(k)) => Ok(k),
        (None, None, None) => Err(
            seq!["server has no key_env/key_value and no global [key] is configured"@],
        ),
    }
}

/// A key that may be missing.
pub open spec fn opt_psk(k: Option<Psk>) -> Option<Seq<u8>> {
    match k {
        Some(k) => Some(k@),
        None => None,
    }
}

/// The pre-shared key of a server.
pub fn resolve_psk(
    s: &ServerSection,
    default_psk: &Option<Psk>,
    env: &Result<String, String>,
) -> (r: Result<Psk, Failure>)
    ensures
        match r {
            Ok(k) => psk_for(*s, opt_psk(*default_psk), given_text(*env)) == Ok::<
                Seq<u8>,
                Seq<Seq<char>>,
            >(k@),
            Err(e) => psk_for(*s, opt_psk(*default_psk), given_text(*env)) == Err::<
                Seq<u8>,
                Seq<Seq<char>>,
            >(e@),
        },
{
    if let Some(var) = &s.key_env {
        return match env {
            Err(why) => Err(
                Failure::because(
                    why.as_str(),
                    text::concat3("env var ", var.as_str(), " not set"),
                ),
            ),
            Ok(b64) => secret::parse_psk(b64.as_str()),
        };
    }
    if let Some(value) = &s.key_value {
        return secret::parse_psk(value.as_str());
    }
    match default_psk {
        Some(k) => Ok(k.clone()),
        None => Err(
            Failure::of("server has no key_env/key_value and no global [key] is configured"),
        ),
    }
}

/// The parts of a configuration file that every server's entry takes up.
pub struct Shared {
    pub static_secret: Seq<u8>,
    pub default_psk: Option<Seq<u8>>,
    pub pool_size: Option<usize>,
    pub knock: KnockSection,
}

/// The entry of one server.
pub open spec fn entry_of(
    shared: Shared,
    s: ServerSection,
    input: ServerInput,
    virtual_ip: Ipv4Addr,
) -> Result<EntryView, Seq<Seq<char>>> {
    match input.addr {
        Err(why) => Err(seq![why@, "server "@ + s.name@ + ": invalid addr "@ + s.addr@]),
        Ok(addr) => match keys::key_of(s.server_pubkey@) {
            Err(e) => Err(
                seq![error::message(e), "server "@ + s.name@ + ": invalid server_pubkey"@],
            ),
            Ok(server_pubkey) => match psk_for(
                s,
                shared.default_psk,
                given_text(input.key_env),
            ) {
                Err(causes) => Err(causes.push("server "@ + s.name@ + ": psk"@)),
                Ok(psk) => Ok(
                    EntryView {
                        name: s.name@,
                        addr,
                        virtual_ip,
                        static_secret: shared.static_secret,
                        server_pubkey,
                        psk,
                        knock: if shared.knock.enabled {
                            Some(
                                KnockSettings {
                                    port: match shared.knock.port {
                                        Some(p) => p,
                                        None => addr.port,
                                    },
                                },
                            )
                        } else {
                            None
                        },
                        fwmark: None,
                        pool_size: match (s.pool_size, shared.pool_size) {
                            (Some(n), _) => n,
                            (None, Some(n)) => n,
                            (None, None) => DEFAULT_POOL_SIZE,
                        },
                    },
                ),
            },
        },
    }
}

/// Whether there is an entry with this name.
pub open spec fn has_name(all: Seq<EntryView>, name: Seq<char>) -> bool {
    exists|i: int| 0 <= i < all.len() && (#[trigger] all[i]).name == name
}

/// The entries of the first `n` servers.
pub open spec fn entries_of(
    shared: Shared,
    servers: Seq<ServerSection>,
    inputs: Seq<ServerInput>,
    ips: Seq<Ipv4Addr>,
    n: int,
) -> Result<Seq<EntryView>, Seq<Seq<char>>>
    decreases n,
{
    if n <= 0 {
        Ok(Seq::empty())
    } else {
        match entries_of(shared, servers, inputs, ips, n - 1) {
            Err(e) => Err(e),
            Ok(before) => match entry_of(shared, servers[n - 1], inputs[n - 1], ips[n - 1]) {
                Err(e) => Err(e),
                Ok(entry) => if has_name(before, entry.name) {
                    Err(seq!["duplicate server name: "@ + entry.name])
                } else {
                    Ok(before.push(entry))
                },
            },
        }
    }
}

proof fn entries_of_fails_early(
    shared: Shared,
    servers: Seq<ServerSection>,
    inputs: Seq<ServerInput>,
    ips: Seq<Ipv4Addr>,
    i: int,
    n: int,
)
    requires
        0 <= i <= n,
        entries_of(shared, servers, inputs, ips, i) is Err,
    ensures
        entries_of(shared, servers, inputs, ips, n) == entries_of(shared, servers, inputs, ips, i),
    decreases n - i,
{
    if i < n {
        entries_of_fails_early(shared, servers, inputs, ips, i + 1, n);
    }
}

/// The forwards of the first `n` sections.
pub open spec fn forwards_of(
    servers: Seq<EntryView>,
    forwards: Seq<ForwardSection>,
    locals: Seq<Result<SocketAddr, String>>,
    n: int,
) -> Result<Seq<ForwardView>, Seq<Seq<char>>>
    decreases n,
{
    if n <= 0 {
        Ok(Seq::empty())
    } else {
        let f = forwards[n - 1];
        match forwards_of(servers, forwards, locals, n - 1) {
            Err(e) => Err(e),
            Ok(before) => match locals[n - 1] {
                Err(why) => Err(seq![why@, "forward: invalid local addr "@ + f.local@]),
                Ok(local) => if has_name(servers, f.server@) {
                    Ok(
                        before.push(
                            ForwardView { local, server: f.server@, remote_port: f.remote_port },
                        ),
                    )
                } else {
                    Err(seq!["forward references unknown server: "@ + f.server@])
                },
            },
        }
    }
}

proof fn forwards_of_fails_early(
    servers: Seq<EntryView>,
    forwards: Seq<ForwardSection>,
    locals: Seq<Result<SocketAddr, String>>,
    i: int,
    n: int,
)
    requires
        0 <= i <= n,
        forwards_of(servers, forwards, locals, i) is Err,
    ensures
        forwards_of(servers, forwards, locals, n) == forwards_of(servers, forwards, locals, i),
    decreases n - i,
{
    if i < n {
        forwards_of_fails_early(servers, forwards, locals, i + 1, n);
    }
}

/// What a configuration file loads as: the entries, the forwards and the TUN device.
pub open spec fn loaded(
    file: FileConfig,
    static_secret: Seq<u8>,
    default_psk: Option<Seq<u8>>,
    inputs: Seq<ServerInput>,
    locals: Seq<Result<SocketAddr, String>>,
) -> Result<(Seq<EntryView>, Seq<ForwardView>, TunConfig), Seq<Seq<char>>> {
    let shared = Shared {
        static_secret,
        default_psk,
        pool_size: file.pool_size,
        knock: file.knock,
    };
    match addresses::tun_of(file.tun) {
        Err(e) => Err(e),
        Ok(tun) => match addresses::virtual_ips(tun, file.server@) {
            Err(e) => Err(e),
            Ok(ips) => match entries_of(
                shared,
                file.server@,
                inputs,
                ips,
                file.server@.len() as int,
            ) {
                Err(e) => Err(e),
                Ok(servers) => match forwards_of(
                    servers,
                    file.forward@,
                    locals,
                    file.forward@.len() as int,
                ) {
                    Err(e) => Err(e),
                    Ok(forwards) => Ok((servers, forwards, tun)),
                },
            },
        },
    }
}

/// The index of the first server with the given name.
pub fn server_of(servers: &[ServerEntry], name: &str) -> (r: Option<usize>)
    ensures
        match r {
            Some(i) => i < servers@.len() && servers@[i as int].name@ == name@ && forall|j: int|
                0 <= j < i ==> (#[trigger] servers@[j]).name@ != name@,
            None => forall|j: int|
                0 <= j < servers@.len() ==> (#[trigger] servers@[j]).name@ != name@,
        },
{
    let mut i: usize = 0;
    while i < servers.len()
        invariant
            i <= servers@.len(),
            forall|j: int| 0 <= j < i ==> (#[trigger] servers@[j]).name@ != name@,
        decreases servers@.len() - i,
    {
        if text::same(servers[i].name.as_str(), name) {
            return Some(i);
        }
        i = i + 1;
    }
    None
}

fn find_entry(all: &Vec<ServerEntry>, name: &str) -> (r: bool)
    ensures
        r == has_name(entries(all@), name@),
{
    assert(forall|j: int|
        0 <= j < all@.len() ==> (#[trigger] entries(all@)[j]).name == all@[j].name@);
    match server_of(all.as_slice(), name) {
        Some(i) => {
            assert(entries(all@)[i as int].name == name@);
            true
        },
        None => false,
    }
}

/// The entry of one server.
fn build_entry(
    file: &FileConfig,
    static_secret: &SecretKey,
    default_psk: &Option<Psk>,
    s: &ServerSection,
    input: &ServerInput,
    virtual_ip: Ipv4Addr,
) -> (r: Result<ServerEntry, Failure>)
    ensures
        ({
            let shared = Shared {
                static_secret: static_secret@,
                default_psk: opt_psk(*default_psk),
                pool_size: file.pool_size,
                knock: file.knock,
            };
            match r {
                Ok(e) => entry_of(shared, *s, *input, virtual_ip) == Ok::<
                    EntryView,
                    Seq<Seq<char>>,
                >(e@),
                Err(e) => entry_of(shared, *s, *input, virtual_ip) == Err::<
                    EntryView,
                    Seq<Seq<char>>,
                >(e@),
            }
        }),
{
    let addr = match &input.addr {
        Ok(a) => *a,
        Err(why) => {
            return Err(
                Failure::because(
                    why.as_str(),
                    text::concat4("server ", s.name.as_str(), ": invalid addr ", s.addr.as_str()),
                ),
            );
        },
    };
    let server_pubkey = match PublicKey::from_base64(s.server_pubkey.as_str()) {
        Ok(k) => k,
        Err(e) => {
            return Err(
                Failure::caused_by(
                    e,
                    text::concat3("server ", s.name.as_str(), ": invalid server_pubkey"),
                ),
            );
        },
    };
    let psk = match resolve_psk(s, default_psk, &input.key_env) {
        Ok(k) => k,
        Err(e) => {
            return Err(e.context(text::concat3("server ", s.name.as_str(), ": psk")));
        },
    };
    let pool_size: usize = match s.pool_size {
        Some(n) => n,
        None => match file.pool_size {
            Some(n) => n,
            None => DEFAULT_POOL_SIZE,
        },
    };
    let knock = if file.knock.enabled {
        Some(
            KnockSettings {
                port: match file.knock.port {
                    Some(p) => p,
                    None => addr.port(),
                },
            },
        )
    } else {
        None
    };
    Ok(
        ServerEntry {
            name: s.name.clone(),
            addr,
            virtual_ip,
            params: TunnelParams {
                static_secret: static_secret.clone(),
                server_pubkey,
                psk,
                knock,
                fwmark: None,
            },
            pool_size,
        },
    )
}

/// Loads a configuration file: `inputs` and `locals` say what the addresses and variables that the
/// file's sections name stand for.
pub fn load(
    file: &FileConfig,
    static_secret: &SecretKey,
    default_psk: &Option<Psk>,
    inputs: &[ServerInput],
    locals: &[Result<SocketAddr, String>],
) -> (r: Result<LoadedClient, Failure>)
    requires
        inputs@.len() == file.server@.len(),
        locals@.len() == file.forward@.len(),
    ensures
        match r {
            Ok(c) => loaded(*file, static_secret@, opt_psk(*default_psk), inputs@, locals@) == Ok::<
                (Seq<EntryView>, Seq<ForwardView>, TunConfig),
                Seq<Seq<char>>,
            >((entries(c.servers@), forward_views(c.forwards@), c.tun)),
            Err(e) => loaded(*file, static_secret@, opt_psk(*default_psk), inputs@, locals@)
                == Err::<(Seq<EntryView>, Seq<ForwardView>, TunConfig), Seq<Seq<char>>>(e@),
        },
        r matches Ok(c) ==> {
            &&& c.servers@.len() == file.server@.len()
            &&& forall|i: int|
                0 <= i < c.servers@.len() ==> (#[trigger] c.servers@[i]).name@
                    == file.server@[i].name@ && inputs@[i].addr == Ok::<SocketAddr, String>(
                    c.servers@[i].addr,
                ) && keys::key_of(file.server@[i].server_pubkey@) == Ok::<
                    Seq<u8>,
                    error::ErrorView,
                >(c.servers@[i].params.server_pubkey@)
            &&& c.forwards@.len() == file.forward@.len()
            &&& forall|i: int|
                0 <= i < c.forwards@.len() ==> locals@[i] == Ok::<SocketAddr, String>(
                    (#[trigger] c.forwards@[i]).local,
                ) && c.forwards@[i].server@ == file.forward@[i].server@
                    && c.forwards@[i].remote_port == file.forward@[i].remote_port
        },
{
    let tun = match parse_tun(&file.tun) {
        Ok(t) => t,
        Err(e) => {
            return Err(e);
        },
    };
    let ips = match resolve_virtual_ips(&tun, file.server.as_slice()) {
        Ok(v) => v,
        Err(e) => {
            return Err(e);
        },
    };
    let ghost shared = Shared {
        static_secret: static_secret@,
        default_psk: opt_psk(*default_psk),
        pool_size: file.pool_size,
        knock: file.knock,
    };
    let mut servers: Vec<ServerEntry> = Vec::new();
    let mut i: usize = 0;
    assert(entries(servers@) =~= Seq::<EntryView>::empty());
    while i < file.server.len()
        invariant
            i <= file.server@.len(),
            inputs@.len() == file.server@.len(),
            ips@.len() == file.server@.len(),
            shared == (Shared {
                static_secret: static_secret@,
                default_psk: opt_psk(*default_psk),
                pool_size: file.pool_size,
                knock: file.knock,
            }),
            entries_of(shared, file.server@, inputs@, ips@, i as int) == Ok::<
                Seq<EntryView>,
                Seq<Seq<char>>,
            >(entries(servers@)),
            addresses::tun_of(file.tun) == Ok::<TunConfig, Seq<Seq<char>>>(tun),
            addresses::virtual_ips(tun, file.server@) == Ok::<Seq<Ipv4Addr>, Seq<Seq<char>>>(ips@),
        decreases file.server@.len() - i,
    {
        let ghost before = entries(servers@);
        match build_entry(file, static_secret, default_psk, &file.server[i], &inputs[i], ips[i]) {
            Err(e) => {
                proof {
                    entries_of_fails_early(
                        shared,
                        file.server@,
                        inputs@,
                        ips@,
                        i + 1,
                        file.server@.len() as int,
                    );
                }
                return Err(e);
            },
            Ok(entry) => {
                if find_entry(&servers, entry.name.as_str()) {
                    proof {
                        entries_of_fails_early(
                            shared,
                            file.server@,
                            inputs@,
                            ips@,
                            i + 1,
                            file.server@.len() as int,
                        );
                    }
                    return Err(
                        Failure::new(text::concat2("duplicate server name: ", entry.name.as_str())),
                    );
                }
                let ghost view = entry@;
                servers.push(entry);
                assert(entries(servers@) =~= before.push(view));
            },
        }
        i = i + 1;
    }
    let mut forwards: Vec<ForwardEntry> = Vec::new();
    let mut j: usize = 0;
    assert(forward_views(forwards@) =~= Seq::<ForwardView>::empty());
    while j < file.forward.len()
        invariant
            j <= file.forward@.len(),
            locals@.len() == file.forward@.len(),
            shared == (Shared {
                static_secret: static_secret@,
                default_psk: opt_psk(*default_psk),
                pool_size: file.pool_size,
                knock: file.knock,
            }),
            entries_of(shared, file.server@, inputs@, ips@, file.server@.len() as int) == Ok::<
                Seq<EntryView>,
                Seq<Seq<char>>,
            >(entries(servers@)),
            addresses::tun_of(file.tun) == Ok::<TunConfig, Seq<Seq<char>>>(tun),
            addresses::virtual_ips(tun, file.server@) == Ok::<Seq<Ipv4Addr>, Seq<Seq<char>>>(ips@),
            forwards_of(entries(servers@), file.forward@, locals@, j as int) == Ok::<
                Seq<ForwardView>,
                Seq<Seq<char>>,
            >(forward_views(forwards@)),
        decreases file.forward@.len() - j,
    {
        let ghost before = forward_views(forwards@);
        let f = &file.forward[j];
        let local = match &locals[j] {
            Ok(a) => *a,
            Err(why) => {
                proof {
                    forwards_of_fails_early(
                        entries(servers@),
                        file.forward@,
                        locals@,
                        j + 1,
                        file.forward@.len() as int,
                    );
                }
                return Err(
                    Failure::because(
                        why.as_str(),
                        text::concat2("forward: invalid local addr ", f.local.as_str()),
                    ),
                );
            },
        };
        if !find_entry(&servers, f.server.as_str()) {
            proof {
                forwards_of_fails_early(
                    entries(servers@),
                    file.forward@,
                    locals@,
                    j + 1,
                    file.forward@.len() as int,
                );
            }
            return Err(
                Failure::new(
                    text::concat2("forward references unknown server: ", f.server.as_str()),
                ),
            );
        }
        let entry = ForwardEntry { local, server: f.server.clone(), remote_port: f.remote_port };
        let ghost view = entry@;
        forwards.push(entry);
        assert(forward_views(forwards@) =~= before.push(view));
        j = j + 1;
    }
    proof {
        let all = entries(servers@);
        assert forall|i: int| 0 <= i < servers@.len() implies (#[trigger] servers@[i]).name@
            == file.server@[i].name@ && inputs@[i].addr == Ok::<SocketAddr, String>(
            servers@[i].addr,
        ) && keys::key_of(file.server@[i].server_pubkey@) == Ok::<Seq<u8>, error::ErrorView>(
            servers@[i].params.server_pubkey@,
        ) by {
            assert(all[i] == servers@[i]@);
            names_are_distinct(shared, file.server@, inputs@, ips@, file.server@.len() as int);
            entries_one_by_one(shared, file.server@, inputs@, ips@, file.server@.len() as int, i);
        }
        names_are_distinct(shared, file.server@, inputs@, ips@, file.server@.len() as int);
        assert(all.len() == servers@.len());
        forwards_one_by_one(all, file.forward@, locals@, file.forward@.len() as int);
        let views = forward_views(forwards@);
        assert(views.len() == forwards@.len());
        assert forall|i: int| 0 <= i < forwards@.len() implies locals@[i] == Ok::<
            SocketAddr,
            String,
        >((#[trigger] forwards@[i]).local) && forwards@[i].server@ == file.forward@[i].server@
            && forwards@[i].remote_port == file.forward@[i].remote_port by {
            assert(views[i] == forwards@[i]@);
        }
    }
    Ok(LoadedClient { servers, forwards, tun })
}

/// No two servers of a loaded configuration share a name, and every forward leads to one of them.
pub proof fn loaded_is_consistent(
    file: FileConfig,
    static_secret: Seq<u8>,
    default_psk: Option<Seq<u8>>,
    inputs: Seq<ServerInput>,
    locals: Seq<Result<SocketAddr, String>>,
)
    requires
        loaded(file, static_secret, default_psk, inputs, locals) is Ok,
    ensures
        ({
            let (servers, forwards, tun) = loaded(
                file,
                static_secret,
                default_psk,
                inputs,
                locals,
            )->Ok_0;
            &&& servers.len() == file.server@.len()
            &&& forall|i: int, j: int|
                0 <= i < j < servers.len() ==> (#[trigger] servers[i]).name != (
                #[trigger] servers[j]).name
            &&& forall|i: int|
                0 <= i < forwards.len() ==> has_name(servers, (#[trigger] forwards[i]).server)
            &&& forall|i: int, j: int|
                0 <= i < j < servers.len() ==> (#[trigger] servers[i]).virtual_ip != (
                #[trigger] servers[j]).virtual_ip
        }),
{
    let shared = Shared {
        static_secret,
        default_psk,
        pool_size: file.pool_size,
        knock: file.knock,
    };
    let (servers, forwards, tun) = loaded(file, static_secret, default_psk, inputs, locals)->Ok_0;
    let ips = addresses::virtual_ips(tun, file.server@)->Ok_0;
    addresses::virtual_ips_are_distinct(tun, file.server@);
    names_are_distinct(shared, file.server@, inputs, ips, file.server@.len() as int);
    forwards_are_known(servers, file.forward@, locals, file.forward@.len() as int);
}

proof fn names_are_distinct(
    shared: Shared,
    servers: Seq<ServerSection>,
    inputs: Seq<ServerInput>,
    ips: Seq<Ipv4Addr>,
    n: int,
)
    requires
        0 <= n,
        entries_of(shared, servers, inputs, ips, n) is Ok,
    ensures
        ({
            let all = entries_of(shared, servers, inputs, ips, n)->Ok_0;
            &&& all.len() == n
            &&& forall|i: int, j: int|
                0 <= i < j < n ==> (#[trigger] all[i]).name != (#[trigger] all[j]).name
            &&& forall|i: int| 0 <= i < n ==> (#[trigger] all[i]).virtual_ip == ips[i]
        }),
    decreases n,
{
    if n > 0 {
        names_are_distinct(shared, servers, inputs, ips, n - 1);
        let before = entries_of(shared, servers, inputs, ips, n - 1)->Ok_0;
        let all = entries_of(shared, servers, inputs, ips, n)->Ok_0;
        assert forall|i: int, j: int| 0 <= i < j < n implies (#[trigger] all[i]).name != (
        #[trigger] all[j]).name by {
            assert(all[i] == before[i]);
            if j < n - 1 {
                assert(all[j] == before[j]);
            }
        }
        assert forall|i: int| 0 <= i < n implies (#[trigger] all[i]).virtual_ip == ips[i] by {
            if i < n - 1 {
                assert(all[i] == before[i]);
            }
        }
    }
}

proof fn forwards_are_known(
    servers: Seq<EntryView>,
    forwards: Seq<ForwardSection>,
    locals: Seq<Result<SocketAddr, String>>,
    n: int,
)
    requires
        forwards_of(servers, forwards, locals, n) is Ok,
    ensures
        forall|i: int|
            0 <= i < forwards_of(servers, forwards, locals, n)->Ok_0.len() ==> has_name(
                servers,
                (#[trigger] forwards_of(servers, forwards, locals, n)->Ok_0[i]).server,
            ),
    decreases n,
{
    if n > 0 {
        forwards_are_known(servers, forwards, locals, n - 1);
        let before = forwards_of(servers, forwards, locals, n - 1)->Ok_0;
        let all = forwards_of(servers, forwards, locals, n)->Ok_0;
        assert forall|i: int| 0 <= i < all.len() implies has_name(
            servers,
            (#[trigger] all[i]).server,
        ) by {
            if i < before.len() {
                assert(all[i] == before[i]);
            }
        }
    }
}

/// The entries of the first `n` servers, one for one.
proof fn entries_one_by_one(
    shared: Shared,
    servers: Seq<ServerSection>,
    inputs: Seq<ServerInput>,
    ips: Seq<Ipv4Addr>,
    n: int,
    i: int,
)
    requires
        0 <= i < n,
        entries_of(shared, servers, inputs, ips, n) is Ok,
    ensures
        entries_of(shared, servers, inputs, ips, n)->Ok_0.len() == n,
        entry_of(shared, servers[i], inputs[i], ips[i]) == Ok::<EntryView, Seq<Seq<char>>>(
            entries_of(shared, servers, inputs, ips, n)->Ok_0[i],
        ),
    decreases n,
{
    names_are_distinct(shared, servers, inputs, ips, n);
    if i < n - 1 {
        entries_one_by_one(shared, servers, inputs, ips, n - 1, i);
    } else {
        names_are_distinct(shared, servers, inputs, ips, n - 1);
    }
}

/// Every server of a loaded configuration is what its own section says: its name, the address that
/// its text stands for, the public key that its text holds, and a pre-shared key from the variable
/// that the section names, or else from the section itself, or else the default one. The admin's
/// secret key is the one that was given.
pub proof fn servers_load_as_configured(
    file: FileConfig,
    static_secret: Seq<u8>,
    default_psk: Option<Seq<u8>>,
    inputs: Seq<ServerInput>,
    locals: Seq<Result<SocketAddr, String>>,
    i: int,
)
    requires
        loaded(file, static_secret, default_psk, inputs, locals) is Ok,
        0 <= i < file.server@.len(),
    ensures
        ({
            let (servers, forwards, tun) = loaded(
                file,
                static_secret,
                default_psk,
                inputs,
                locals,
            )->Ok_0;
            let s = file.server@[i];
            let e = servers[i];
            &&& servers.len() == file.server@.len()
            &&& e.name == s.name@
            &&& inputs[i].addr == Ok::<SocketAddr, String>(e.addr)
            &&& keys::key_of(s.server_pubkey@) == Ok::<Seq<u8>, error::ErrorView>(e.server_pubkey)
            &&& e.static_secret == static_secret
            &&& s.key_env is Some ==> (inputs[i].key_env matches Ok(t) && psk::psk_of(t@) == Ok::<
                Seq<u8>,
                error::ErrorView,
            >(e.psk))
            &&& s.key_env is None ==> (s.key_value matches Some(t) ==> psk::psk_of(t@) == Ok::<
                Seq<u8>,
                error::ErrorView,
            >(e.psk))
            &&& s.key_env is None && s.key_value is None ==> default_psk == Some(e.psk)
        }),
{
    let shared = Shared { static_secret, default_psk, pool_size: file.pool_size, knock: file.knock };
    let (servers, forwards, tun) = loaded(file, static_secret, default_psk, inputs, locals)->Ok_0;
    let ips = addresses::virtual_ips(tun, file.server@)->Ok_0;
    entries_one_by_one(shared, file.server@, inputs, ips, file.server@.len() as int, i);
}

/// How a server of a loaded configuration is reached: knocked for if knocks are switched on, at the
/// port that the file names or else at the port of its address; with as many connections as its own
/// section says, or else the file, or else two; without a mark; and under the virtual address that
/// was given out for it.
pub proof fn servers_are_reached_as_configured(
    file: FileConfig,
    static_secret: Seq<u8>,
    default_psk: Option<Seq<u8>>,
    inputs: Seq<ServerInput>,
    locals: Seq<Result<SocketAddr, String>>,
    i: int,
)
    requires
        loaded(file, static_secret, default_psk, inputs, locals) is Ok,
        0 <= i < file.server@.len(),
    ensures
        ({
            let (servers, forwards, tun) = loaded(
                file,
                static_secret,
                default_psk,
                inputs,
                locals,
            )->Ok_0;
            let s = file.server@[i];
            let e = servers[i];
            &&& e.knock is Some <==> file.knock.enabled
            &&& e.knock matches Some(k) ==> (file.knock.port matches Some(p) ==> k.port == p)
            &&& e.knock matches Some(k) ==> (file.knock.port is None ==> k.port == e.addr.port)
            &&& s.pool_size matches Some(n) ==> e.pool_size == n
            &&& s.pool_size is None ==> (file.pool_size matches Some(n) ==> e.pool_size == n)
            &&& s.pool_size is None && file.pool_size is None ==> e.pool_size == 2
            &&& e.fwmark is None
            &&& addresses::virtual_ips(tun, file.server@) matches Ok(ips) && e.virtual_ip == ips[i]
        }),
{
    let shared = Shared { static_secret, default_psk, pool_size: file.pool_size, knock: file.knock };
    let (servers, forwards, tun) = loaded(file, static_secret, default_psk, inputs, locals)->Ok_0;
    let ips = addresses::virtual_ips(tun, file.server@)->Ok_0;
    entries_one_by_one(shared, file.server@, inputs, ips, file.server@.len() as int, i);
}

/// The forwards of a loaded configuration are those of its sections, one for one: from the address
/// that the text stands for, to the named server and port. The TUN device is what its section says.
pub proof fn forwards_load_as_configured(
    file: FileConfig,
    static_secret: Seq<u8>,
    default_psk: Option<Seq<u8>>,
    inputs: Seq<ServerInput>,
    locals: Seq<Result<SocketAddr, String>>,
)
    requires
        loaded(file, static_secret, default_psk, inputs, locals) is Ok,
    ensures
        ({
            let (servers, forwards, tun) = loaded(
                file,
                static_secret,
                default_psk,
                inputs,
                locals,
            )->Ok_0;
            &&& forwards.len() == file.forward@.len()
            &&& forall|i: int|
                0 <= i < forwards.len() ==> locals[i] == Ok::<SocketAddr, String>(
                    (#[trigger] forwards[i]).local,
                ) && forwards[i].server == file.forward@[i].server@ && forwards[i].remote_port
                    == file.forward@[i].remote_port
            &&& file.tun.addr@ == net::dotted(tun.addr)
            &&& tun.prefix == file.tun.prefix
            &&& tun.mtu == file.tun.mtu
        }),
{
    let (servers, forwards, tun) = loaded(file, static_secret, default_psk, inputs, locals)->Ok_0;
    forwards_one_by_one(servers, file.forward@, locals, file.forward@.len() as int);
    addresses::tun_section_is_read(file.tun, tun.addr);
}

proof fn forwards_one_by_one(
    servers: Seq<EntryView>,
    forwards: Seq<ForwardSection>,
    locals: Seq<Result<SocketAddr, String>>,
    n: int,
)
    requires
        0 <= n,
        forwards_of(servers, forwards, locals, n) is Ok,
    ensures
        ({
            let all = forwards_of(servers, forwards, locals, n)->Ok_0;
            &&& all.len() == n
            &&& forall|i: int|
                0 <= i < n ==> locals[i] == Ok::<SocketAddr, String>((#[trigger] all[i]).local)
                    && all[i].server == forwards[i].server@ && all[i].remote_port
                    == forwards[i].remote_port
        }),
    decreases n,
{
    if n > 0 {
        forwards_one_by_one(servers, forwards, locals, n - 1);
        let before = forwards_of(servers, forwards, locals, n - 1)->Ok_0;
        let all = forwards_of(servers, forwards, locals, n)->Ok_0;
        assert forall|i: int| 0 <= i < n implies locals[i] == Ok::<SocketAddr, String>(
            (#[trigger] all[i]).local,
        ) && all[i].server == forwards[i].server@ && all[i].remote_port
            == forwards[i].remote_port by {
            if i < n - 1 {
                assert(all[i] == before[i]);
            }
        }
    }
}

/// Why a server does not load: first its address, then its public key, then its pre-shared key is
/// looked at, and the first of them that is not in order is told, with the name of the server.
pub proof fn why_a_server_does_not_load(
    shared: Shared,
    s: ServerSection,
    input: ServerInput,
    virtual_ip: Ipv4Addr,
)
    ensures
        input.addr matches Err(why) ==> entry_of(shared, s, input, virtual_ip) == Err::<
            EntryView,
            Seq<Seq<char>>,
        >(seq![why@, "server "@ + s.name@ + ": invalid addr "@ + s.addr@]),
        input.addr is Ok ==> (keys::key_of(s.server_pubkey@) matches Err(e) ==> entry_of(
            shared,
            s,
            input,
            virtual_ip,
        ) == Err::<EntryView, Seq<Seq<char>>>(
            seq![error::message(e), "server "@ + s.name@ + ": invalid server_pubkey"@],
        )),
        input.addr is Ok && keys::key_of(s.server_pubkey@) is Ok && s.key_env is Some ==> (
        input.key_env matches Err(why) ==> entry_of(shared, s, input, virtual_ip) == Err::<
            EntryView,
            Seq<Seq<char>>,
        >(
            seq![
                why@,
                "env var "@ + s.key_env->0@ + " not set"@,
                "server "@ + s.name@ + ": psk"@,
            ],
        )),
        input.addr is Ok && keys::key_of(s.server_pubkey@) is Ok && s.key_env is None
            && s.key_value is None && shared.default_psk is None ==> entry_of(
            shared,
            s,
            input,
            virtual_ip,
        ) == Err::<EntryView, Seq<Seq<char>>>(
            seq![
                "server has no key_env/key_value and no global [key] is configured"@,
                "server "@ + s.name@ + ": psk"@,
            ],
        ),
{
    if let Err(why) = input.key_env {
        if s.key_env is Some {
            assert(seq![why@, "env var "@ + s.key_env->0@ + " not set"@].push(
                "server "@ + s.name@ + ": psk"@,
            ) =~= seq![
                why@,
                "env var "@ + s.key_env->0@ + " not set"@,
                "server "@ + s.name@ + ": psk"@,
            ]);
        }
    }
    assert(seq!["server has no key_env/key_value and no global [key] is configured"@].push(
        "server "@ + s.name@ + ": psk"@,
    ) =~= seq![
        "server has no key_env/key_value and no global [key] is configured"@,
        "server "@ + s.name@ + ": psk"@,
    ]);
}

/// Why sections do not load though each could: the first server whose name an earlier one has is told,
/// and the first forward whose address is none, or whose server there is not.
pub proof fn why_sections_do_not_load(
    shared: Shared,
    servers: Seq<ServerSection>,
    inputs: Seq<ServerInput>,
    ips: Seq<Ipv4Addr>,
    n: int,
    all: Seq<EntryView>,
    forwards: Seq<ForwardSection>,
    locals: Seq<Result<SocketAddr, String>>,
    m: int,
)
    requires
        n >= 0,
        m >= 0,
    ensures
        entries_of(shared, servers, inputs, ips, n) matches Ok(before) ==> (entry_of(
            shared,
            servers[n],
            inputs[n],
            ips[n],
        ) is Ok ==> ((exists|i: int|
            0 <= i < before.len() && (#[trigger] before[i]).name == servers[n].name@) ==> entries_of(
            shared,
            servers,
            inputs,
            ips,
            n + 1,
        ) == Err::<Seq<EntryView>, Seq<Seq<char>>>(
            seq!["duplicate server name: "@ + servers[n].name@],
        ))),
        forwards_of(all, forwards, locals, m) is Ok ==> (locals[m] matches Err(why) ==> forwards_of(
            all,
            forwards,
            locals,
            m + 1,
        ) == Err::<Seq<ForwardView>, Seq<Seq<char>>>(
            seq![why@, "forward: invalid local addr "@ + forwards[m].local@],
        )),
        forwards_of(all, forwards, locals, m) is Ok && locals[m] is Ok && (forall|i: int|
            0 <= i < all.len() ==> (#[trigger] all[i]).name != forwards[m].server@) ==> forwards_of(
            all,
            forwards,
            locals,
            m + 1,
        ) == Err::<Seq<ForwardView>, Seq<Seq<char>>>(
            seq!["forward references unknown server: "@ + forwards[m].server@],
        ),
{
}

/// Whether a section's server can be used: its address is one, its key is one, and it has a
/// pre-shared key.
spec fn usable(s: ServerSection, input: ServerInput, default_psk: Option<Seq<u8>>) -> bool {
    &&& input.addr is Ok
    &&& keys::key_of(s.server_pubkey@) is Ok
    &&& s.key_env is Some ==> (input.key_env matches Ok(t) && psk::psk_of(t@) is Ok)
    &&& s.key_env is None ==> (s.key_value matches Some(t) ==> psk::psk_of(t@) is Ok)
    &&& s.key_env is None && s.key_value is None ==> default_psk is Some
}

/// A configuration loads if its parts are in order: the TUN device's address and prefix, an address
/// for every server, servers that can be used under names of their own, and forwards from addresses
/// to servers that there are.
pub proof fn configurations_in_order_load(
    file: FileConfig,
    static_secret: Seq<u8>,
    default_psk: Option<Seq<u8>>,
    inputs: Seq<ServerInput>,
    locals: Seq<Result<SocketAddr, String>>,
    addr: Ipv4Addr,
)
    requires
        file.tun.addr@ == net::dotted(addr),
        1 <= file.tun.prefix <= 30,
        addresses::virtual_ips(
            (TunConfig { addr, prefix: file.tun.prefix, mtu: file.tun.mtu }),
            file.server@,
        ) is Ok,
        inputs.len() == file.server@.len(),
        locals.len() == file.forward@.len(),
        forall|i: int|
            0 <= i < inputs.len() ==> (#[trigger] inputs[i]).addr is Ok && keys::key_of(
                file.server@[i].server_pubkey@,
            ) is Ok,
        forall|i: int|
            0 <= i < inputs.len() ==> match (file.server@[i].key_env, file.server@[i].key_value) {
                (Some(_), _) => (#[trigger] inputs[i]).key_env matches Ok(t) && psk::psk_of(
                    t@,
                ) is Ok,
                (None, Some(t)) => psk::psk_of(t@) is Ok,
                (None, None) => default_psk is Some,
            },
        forall|i: int, j: int|
            0 <= i < j < file.server@.len() ==> (#[trigger] file.server@[i]).name@ != (
            #[trigger] file.server@[j]).name@,
        forall|i: int| 0 <= i < locals.len() ==> (#[trigger] locals[i]) is Ok,
        forall|i: int|
            0 <= i < file.forward@.len() ==> exists|j: int|
                0 <= j < file.server@.len() && (#[trigger] file.server@[j]).name@ == (
                #[trigger] file.forward@[i]).server@,
    ensures
        loaded(file, static_secret, default_psk, inputs, locals) is Ok,
{
    let shared = Shared { static_secret, default_psk, pool_size: file.pool_size, knock: file.knock };
    addresses::tun_section_is_read(file.tun, addr);
    let tun = addresses::tun_of(file.tun)->Ok_0;
    let ips = addresses::virtual_ips(tun, file.server@)->Ok_0;
    let n = file.server@.len() as int;
    assert forall|i: int| 0 <= i < inputs.len() implies usable(
        file.server@[i],
        #[trigger] inputs[i],
        default_psk,
    ) by {
        assert(inputs[i].addr is Ok);
    }
    usable_servers_load(shared, file.server@, inputs, ips, n);
    let servers = entries_of(shared, file.server@, inputs, ips, n)->Ok_0;
    names_are_distinct(shared, file.server@, inputs, ips, n);
    assert forall|i: int| 0 <= i < file.forward@.len() implies has_name(
        servers,
        (#[trigger] file.forward@[i]).server@,
    ) by {
        let j = choose|j: int|
            0 <= j < file.server@.len() && (#[trigger] file.server@[j]).name@
                == file.forward@[i].server@;
        entries_one_by_one(shared, file.server@, inputs, ips, n, j);
        assert(servers[j].name == file.forward@[i].server@);
    }
    known_forwards_load(servers, file.forward@, locals, file.forward@.len() as int);
}

proof fn usable_servers_load(
    shared: Shared,
    servers: Seq<ServerSection>,
    inputs: Seq<ServerInput>,
    ips: Seq<Ipv4Addr>,
    n: int,
)
    requires
        0 <= n <= servers.len() == inputs.len(),
        forall|i: int|
            0 <= i < inputs.len() ==> usable(
                servers[i],
                #[trigger] inputs[i],
                shared.default_psk,
            ),
        forall|i: int, j: int|
            0 <= i < j < servers.len() ==> (#[trigger] servers[i]).name@ != (
            #[trigger] servers[j]).name@,
    ensures
        entries_of(shared, servers, inputs, ips, n) is Ok,
    decreases n,
{
    if n > 0 {
        usable_servers_load(shared, servers, inputs, ips, n - 1);
        names_are_distinct(shared, servers, inputs, ips, n - 1);
        let before = entries_of(shared, servers, inputs, ips, n - 1)->Ok_0;
        assert(usable(servers[n - 1], inputs[n - 1], shared.default_psk));
        let name = servers[n - 1].name@;
        if has_name(before, name) {
            let i = choose|i: int| 0 <= i < before.len() && (#[trigger] before[i]).name == name;
            entries_one_by_one(shared, servers, inputs, ips, n - 1, i);
            assert(servers[i].name@ != servers[n - 1].name@);
        }
    }
}

proof fn known_forwards_load(
    servers: Seq<EntryView>,
    forwards: Seq<ForwardSection>,
    locals: Seq<Result<SocketAddr, String>>,
    n: int,
)
    requires
        0 <= n <= forwards.len() == locals.len(),
        forall|i: int| 0 <= i < locals.len() ==> (#[trigger] locals[i]) is Ok,
        forall|i: int|
            0 <= i < forwards.len() ==> has_name(servers, (#[trigger] forwards[i]).server@),
    ensures
        forwards_of(servers, forwards, locals, n) is Ok,
    decreases n,
{
    if n > 0 {
        known_forwards_load(servers, forwards, locals, n - 1);
        assert(locals[n - 1] is Ok);
        assert(has_name(servers, forwards[n - 1].server@));
    }
}

/// Where the default pre-shared key comes from.
pub enum KeyPlan {
    /// A passphrase, from the named variable or asked for, stretched with the salt.
    Passphrase { salt: String, env: Option<String> },
    /// The named variable.
    Env { var: String },
    /// The configuration itself.
    Value { b64: String },
}

/// Where the `[key]` section takes the default key from.
pub open spec fn key_plan(k: KeySection, r: Result<KeyPlan, Failure>) -> bool {
    if k.source@ == "passphrase"@ {
        match k.salt {
            None => r matches Err(e) && e@ == seq!["[key] source = passphrase requires salt"@],
            Some(s) => r matches Ok(KeyPlan::Passphrase { salt, env }) && salt@ == s@
                && common::opt_text(env) == common::opt_text(k.passphrase_env),
        }
    } else if k.source@ == "env"@ {
        match k.env_var {
            None => r matches Err(e) && e@ == seq!["[key] source = env requires env_var"@],
            Some(v) => r matches Ok(KeyPlan::Env { var }) && var@ == v@,
        }
    } else if k.source@ == "value"@ {
        match k.value {
            None => r matches Err(e) && e@ == seq!["[key] source = value requires value"@],
            Some(v) => r matches Ok(KeyPlan::Value { b64 }) && b64@ == v@,
        }
    } else {
        r matches Err(e) && e@ == seq!["unknown [key] source: "@ + k.source@]
    }
}

/// Where the `[key]` section takes the default key from.
pub fn plan_default_key(key: &KeySection) -> (r: Result<KeyPlan, Failure>)
    ensures
        key_plan(*key, r),
{
    if text::same(key.source.as_str(), "passphrase") {
        return match &key.salt {
            Some(salt) => Ok(
                KeyPlan::Passphrase { salt: salt.clone(), env: common::clone_opt(&key.passphrase_env) },
            ),
            None => Err(Failure::of("[key] source = passphrase requires salt")),
        };
    }
    if text::same(key.source.as_str(), "env") {
        return match &key.env_var {
            Some(var) => Ok(KeyPlan::Env { var: var.clone() }),
            None => Err(Failure::of("[key] source = env requires env_var")),
        };
    }
    if text::same(key.source.as_str(), "value") {
        return match &key.value {
            Some(v) => Ok(KeyPlan::Value { b64: v.clone() }),
            None => Err(Failure::of("[key] source = value requires value")),
        };
    }
    Err(Failure::new(text::concat2("unknown [key] source: ", key.source.as_str())))
}

/// The key that a plan gives: `material` is the passphrase, or the value of the variable, or why
/// there is none.
pub open spec fn planned_psk(plan: KeyPlan, material: Result<Seq<char>, Seq<char>>) -> Result<
    Seq<u8>,
    Seq<Seq<char>>,
> {
    match plan {
        KeyPlan::Passphrase { salt, env } => {
            let passphrase = match material {
                Ok(p) => p,
                Err(_) => Seq::empty(),
            };
            secret::passphrase_psk(passphrase, salt@)
        },
        KeyPlan::Env { var } => match material {
            Err(why) => Err(seq![why, "env var "@ + var@ + " not set"@]),
            Ok(b64) => secret::psk_text(b64),
        },
        KeyPlan::Value { b64 } => secret::psk_text(b64@),
    }
}

/// The key that a plan gives.
pub fn resolve_default_psk(plan: &KeyPlan, material: Result<&str, &str>) -> (r: Result<
    Psk,
    Failure,
>)
    requires
        plan is Passphrase ==> material is Ok,
    ensures
        ({
            let m = match material {
                Ok(t) => Ok(t@),
                Err(why) => Err(why@),
            };
            match r {
                Ok(k) => planned_psk(*plan, m) == Ok::<Seq<u8>, Seq<Seq<char>>>(k@),
                Err(e) => planned_psk(*plan, m) == Err::<Seq<u8>, Seq<Seq<char>>>(e@),
            }
        }),
{
    match plan {
        KeyPlan::Passphrase { salt, env: _ } => {
            let passphrase = match material {
                Ok(p) => p,
                Err(_) => "",
            };
            secret::derive_psk(passphrase, salt.as_str())
        },
        KeyPlan::Env { var } => {
            match material {
                Ok(b64) => secret::parse_psk(b64),
                Err(why) => Err(
                    Failure::because(why, text::concat3("env var ", var.as_str(), " not set")),
                ),
            }
        },
        KeyPlan::Value { b64 } => secret::parse_psk(b64.as_str()),
    }
}

proof fn sources_differ()
    ensures
        "passphrase"@ != "env"@ && "passphrase"@ != "value"@ && "env"@ != "value"@,
{
    reveal_strlit("passphrase");
    reveal_strlit("env");
    reveal_strlit("value");
    assert("passphrase"@.len() == 10 && "env"@.len() == 3 && "value"@.len() == 5);
}

/// The default pre-shared key is the one that the `[key]` section points at: the key that its value
/// or the named variable holds in Base64, or the one that the passphrase gives with the salt. A
/// variable that is not set is a failure.
pub proof fn the_named_key_is_used(
    k: KeySection,
    r: Result<KeyPlan, Failure>,
    key: Seq<u8>,
    passphrase: Seq<char>,
    why: Seq<char>,
)
    requires
        key_plan(k, r),
        key.len() == 32,
    ensures
        k.source@ == "value"@ && (k.value matches Some(v) && v@ == encoding::base64(key)) ==> (
        r matches Ok(plan) && plan is Value && planned_psk(plan, Err(why)) == Ok::<
            Seq<u8>,
            Seq<Seq<char>>,
        >(key)),
        k.source@ == "env"@ ==> (k.env_var matches Some(v) ==> (r matches Ok(plan) && (
        plan matches KeyPlan::Env { var } && var@ == v@) && planned_psk(
            plan,
            Ok(encoding::base64(key)),
        ) == Ok::<Seq<u8>, Seq<Seq<char>>>(key) && planned_psk(plan, Err(why)) is Err)),
        k.source@ == "passphrase"@ ==> (k.salt matches Some(s) ==> (r matches Ok(plan) && (
        plan matches KeyPlan::Passphrase { salt, env } && salt@ == s@ && common::opt_text(env)
            == common::opt_text(k.passphrase_env)) && {
            let p = vstd::utf8::encode_utf8(passphrase);
            let t = vstd::utf8::encode_utf8(s@);
            8 <= t.len() <= 0xffff_ffff && p.len() <= 0xffff_ffff ==> planned_psk(
                plan,
                Ok(passphrase),
            ) == Ok::<Seq<u8>, Seq<Seq<char>>>(crypto::argon2id(p, t))
        })),
{
    sources_differ();
    secret::psk_texts_are_read(key);
}

/// The `[key]` section names a key exactly if its source is one of the three and what belongs to that
/// source is there.
pub proof fn a_key_is_named_or_missing(k: KeySection, r: Result<KeyPlan, Failure>)
    requires
        key_plan(k, r),
    ensures
        r is Ok <==> k.source@ == "passphrase"@ && k.salt is Some || k.source@ == "env"@
            && k.env_var is Some || k.source@ == "value"@ && k.value is Some,
{
    sources_differ();
}

/// The admin's secret key, as read from its file.
pub fn parse_admin_key(b64: &str) -> (r: Result<SecretKey, Failure>)
    ensures
        match keys::key_of(b64@) {
            Ok(k) => r matches Ok(s) && s@ == k,
            Err(e) => r matches Err(f) && f@ == seq![error::message(e), "invalid admin key"@],
        },
{
    match SecretKey::from_base64(b64) {
        Ok(k) => Ok(k),
        Err(e) => Err(Failure::caused_by(e, "invalid admin key".to_owned())),
    }
}

/// A server in a summary.
pub struct ServerSummary {
    pub name: String,
    pub addr: String,
    pub virtual_ip: Ipv4Addr,
}

/// What is shown of a configuration.
pub struct Summary {
    pub servers: Vec<ServerSummary>,
    pub key_is_passphrase: bool,
    pub passphrase_env: Option<String>,
    pub tun_addr: Ipv4Addr,
}

/// Whether the `[key]` section asks for a passphrase.
pub open spec fn wants_passphrase(key: Option<KeySection>) -> bool {
    key matches Some(k) && k.source@ == "passphrase"@
}

/// What is shown of a configuration file whose virtual addresses are `ips`.
pub open spec fn summarizes(file: FileConfig, tun: TunConfig, ips: Seq<Ipv4Addr>, s: Summary) -> bool {
    &&& s.tun_addr == tun.addr
    &&& s.key_is_passphrase == wants_passphrase(file.key)
    &&& common::opt_text(s.passphrase_env) == (if wants_passphrase(file.key) {
        common::opt_text(file.key->0.passphrase_env)
    } else {
        None
    })
    &&& s.servers@.len() == file.server@.len()
    &&& forall|i: int|
        0 <= i < s.servers@.len() ==> (#[trigger] s.servers@[i]).name@ == file.server@[i].name@
            && s.servers@[i].addr@ == file.server@[i].addr@ && s.servers@[i].virtual_ip == ips[i]
}

/// Sums up a configuration file.
pub fn summarize(file: &FileConfig) -> (r: Result<Summary, Failure>)
    ensures
        match addresses::tun_of(file.tun) {
            Err(e) => r matches Err(f) && f@ == e,
            Ok(tun) => match addresses::virtual_ips(tun, file.server@) {
                Err(e) => r matches Err(f) && f@ == e,
                Ok(ips) => r matches Ok(s) && summarizes(*file, tun, ips, s),
            },
        },
{
    let tun = match parse_tun(&file.tun) {
        Ok(t) => t,
        Err(e) => {
            return Err(e);
        },
    };
    let ips = match resolve_virtual_ips(&tun, file.server.as_slice()) {
        Ok(v) => v,
        Err(e) => {
            return Err(e);
        },
    };
    let mut servers: Vec<ServerSummary> = Vec::new();
    let mut i: usize = 0;
    while i < file.server.len()
        invariant
            i <= file.server@.len(),
            ips@.len() == file.server@.len(),
            servers@.len() == i,
            forall|j: int|
                0 <= j < i ==> (#[trigger] servers@[j]).name@ == file.server@[j].name@
                    && servers@[j].addr@ == file.server@[j].addr@ && servers@[j].virtual_ip
                    == ips@[j],
        decreases file.server@.len() - i,
    {
        let s = &file.server[i];
        servers.push(
            ServerSummary { name: s.name.clone(), addr: s.addr.clone(), virtual_ip: ips[i] },
        );
        i = i + 1;
    }
    let (key_is_passphrase, passphrase_env) = match &file.key {
        Some(k) => if text::same(k.source.as_str(), "passphrase") {
            (true, common::clone_opt(&k.passphrase_env))
        } else {
            (false, None)
        },
        None => (false, None),
    };
    Ok(Summary { servers, key_is_passphrase, passphrase_env, tun_addr: tun.addr })
}

/// What is shown of each server is what it is loaded as: its name and its virtual address, and the
/// text of its address; a passphrase is asked for exactly if the `[key]` section says so.
pub proof fn what_is_shown_is_what_is_loaded(
    file: FileConfig,
    s: Summary,
    static_secret: Seq<u8>,
    default_psk: Option<Seq<u8>>,
    inputs: Seq<ServerInput>,
    locals: Seq<Result<SocketAddr, String>>,
)
    requires
        loaded(file, static_secret, default_psk, inputs, locals) is Ok,
        addresses::tun_of(file.tun) matches Ok(tun) && (addresses::virtual_ips(
            tun,
            file.server@,
        ) matches Ok(ips) && summarizes(file, tun, ips, s)),
    ensures
        ({
            let (servers, forwards, tun) = loaded(
                file,
                static_secret,
                default_psk,
                inputs,
                locals,
            )->Ok_0;
            &&& s.tun_addr == tun.addr
            &&& s.servers@.len() == servers.len()
            &&& forall|i: int|
                0 <= i < servers.len() ==> (#[trigger] s.servers@[i]).name@ == servers[i].name
                    && s.servers@[i].virtual_ip == servers[i].virtual_ip && s.servers@[i].addr@
                    == file.server@[i].addr@
            &&& s.key_is_passphrase <==> (file.key matches Some(k) && k.source@ == "passphrase"@)
            &&& s.key_is_passphrase ==> common::opt_text(s.passphrase_env) == common::opt_text(
                file.key->0.passphrase_env,
            )
            &&& !s.key_is_passphrase ==> s.passphrase_env is None
        }),
{
    let (servers, forwards, tun) = loaded(file, static_secret, default_psk, inputs, locals)->Ok_0;
    loaded_is_consistent(file, static_secret, default_psk, inputs, locals);
    assert forall|i: int| 0 <= i < servers.len() implies (#[trigger] s.servers@[i]).name@
        == servers[i].name && s.servers@[i].virtual_ip == servers[i].virtual_ip
        && s.servers@[i].addr@ == file.server@[i].addr@ by {
        servers_load_as_configured(file, static_secret, default_psk, inputs, locals, i);
        servers_are_reached_as_configured(file, static_secret, default_psk, inputs, locals, i);
    }
}

pub open spec fn is_alphanumeric(c: char) -> bool {
    'A' <= c <= 'Z' || 'a' <= c <= 'z' || '0' <= c <= '9'
}

/// The first `n` characters of a text, or all if it has fewer.
pub open spec fn at_most(s: Seq<char>, n: nat) -> Seq<char> {
    if s.len() <= n {
        s
    } else {
        s.take(n as int)
    }
}

/// The salt that is made from a public key: the first letters and digits of its Base64 form.
pub open spec fn salt_of(key: Seq<u8>) -> Seq<char> {
    at_most(encoding::base64(key).filter(|c: char| is_alphanumeric(c)), 22)
}

/// The salt of a key is the first letters and digits of the key's Base64 form, 22 of them where there
/// are as many.
pub proof fn what_a_salt_is(key: Seq<u8>)
    ensures
        ({
            let kept = encoding::base64(key).filter(
                |c: char| 'A' <= c <= 'Z' || 'a' <= c <= 'z' || '0' <= c <= '9',
            );
            &&& salt_of(key).is_prefix_of(kept)
            &&& kept.len() >= 22 ==> salt_of(key).len() == 22
            &&& kept.len() < 22 ==> salt_of(key) == kept
        }),
{
    let letters = |c: char| 'A' <= c <= 'Z' || 'a' <= c <= 'z' || '0' <= c <= '9';
    assert((|c: char| is_alphanumeric(c)) =~= letters);
    let kept = encoding::base64(key).filter(letters);
    assert(salt_of(key) =~= kept.take(salt_of(key).len() as int));
}

/// The salt that is made from a public key.
pub fn make_salt(key: &PublicKey) -> (r: String)
    ensures
        r@ == salt_of(key@),
{
    let b64 = key.to_base64();
    let ghost t = b64@;
    let ghost keep = |c: char| is_alphanumeric(c);
    let mut out = String::new();
    let mut n: usize = 0;
    proof {
        reveal(Seq::filter);
        assert(t.take(0).filter(keep) =~= Seq::<char>::empty());
    }
    for c in it: b64.as_str().chars()
        invariant
            it.seq() == t,
            keep == (|c: char| is_alphanumeric(c)),
            n <= 22,
            n == out@.len(),
            out@ == at_most(t.take(it.index() as int).filter(keep), 22),
    {
        let ghost i = it.index() as int;
        proof {
            assert(t.take(i + 1).drop_last() =~= t.take(i));
            reveal(Seq::filter);
        }
        let ghost before = t.take(i).filter(keep);
        let ok = ('A' <= c && c <= 'Z') || ('a' <= c && c <= 'z') || ('0' <= c && c <= '9');
        assert(t.take(i + 1).filter(keep) == if ok {
            before.push(c)
        } else {
            before
        });
        if ok && n < 22 {
            out.push(c);
            n = n + 1;
        }
        assert(out@ =~= at_most(t.take(i + 1).filter(keep), 22));
    }
    assert(t.take(t.len() as int) =~= t);
    out
}

/// What initializing gives: the secret key to keep, the file to write, and what is shown.
pub struct InitOutcome {
    pub secret: String,
    pub file: FileConfig,
    pub admin_pubkey: String,
    pub salt: String,
}

/// A new configuration: a passphrase with the given salt, knocks on, the default TUN device, no
/// servers and no forwards.
pub open spec fn is_initial(file: FileConfig, key_path: Seq<char>, salt: Seq<char>) -> bool {
    &&& file.admin_static_key_file@ == key_path
    &&& file.pool_size is None
    &&& file.key matches Some(k) && {
        &&& k.source@ == "passphrase"@
        &&& k.env_var is None
        &&& k.value is None
        &&& common::opt_text(k.passphrase_env) == Some("HYPERION_PASSPHRASE"@)
        &&& common::opt_text(k.salt) == Some(salt)
    }
    &&& file.knock.enabled
    &&& file.knock.port is None
    &&& file.tun.addr@ == "10.99.0.1"@
    &&& file.tun.prefix == 24
    &&& file.tun.mtu == 1420
    &&& file.server@.len() == 0
    &&& file.forward@.len() == 0
}

/// A new configuration.
pub fn initial_config(key_path: &str, salt: &str) -> (r: FileConfig)
    ensures
        is_initial(r, key_path@, salt@),
{
    FileConfig {
        admin_static_key_file: key_path.to_owned(),
        pool_size: None,
        key: Some(
            KeySection {
                source: "passphrase".to_owned(),
                env_var: None,
                value: None,
                passphrase_env: Some("HYPERION_PASSPHRASE".to_owned()),
                salt: Some(salt.to_owned()),
            },
        ),
        knock: KnockSection { enabled: true, port: None },
        tun: TunSection {
            addr: default_tun_addr(),
            prefix: default_tun_prefix(),
            mtu: default_tun_mtu(),
        },
        server: Vec::new(),
        forward: Vec::new(),
    }
}

/// Makes a new admin key, a new salt and a configuration with them, unless there is a configuration
/// that must not be overwritten.
pub fn init_config(force: bool, exists: bool, cfg_path: &str, key_path: &str) -> (r: Result<
    InitOutcome,
    Failure,
>)
    ensures
        r is Err <==> exists && !force,
        r matches Err(e) ==> e@ == seq![
            "config already exists at "@ + cfg_path@ + " (use --force to overwrite)"@,
        ],
        r matches Ok(o) ==> is_initial(o.file, key_path@, o.salt@) && (keys::key_of(
            o.secret@,
        ) matches Ok(secret) && o.admin_pubkey@ == encoding::base64(crypto::x25519_public(secret)))
            && (exists|key: Seq<u8>| key.len() == 32 && o.salt@ == #[trigger] salt_of(key)),
{
    if exists && !force {
        return Err(
            Failure::new(
                text::concat3("config already exists at ", cfg_path, " (use --force to overwrite)"),
            ),
        );
    }
    let keypair = Keypair::generate();
    let other = Keypair::generate();
    let salt = make_salt(&other.public);
    assert(other.public@.len() == 32 && salt@ == salt_of(other.public@));
    let file = initial_config(key_path, salt.as_str());
    let secret = keypair.secret.to_base64();
    let admin_pubkey = keypair.public.to_base64();
    Ok(InitOutcome { secret, file, admin_pubkey, salt })
}

/// A new configuration loads as a TUN device at 10.99.0.1 with a subnet of 256 addresses, no servers
/// and no forwards; it asks for the passphrase in `HYPERION_PASSPHRASE` and stretches it with the salt
/// that it was made with, and it knocks at the port of each server's address.
pub proof fn a_new_configuration_loads(
    file: FileConfig,
    key_path: Seq<char>,
    salt: Seq<char>,
    static_secret: Seq<u8>,
    default_psk: Option<Seq<u8>>,
    inputs: Seq<ServerInput>,
    locals: Seq<Result<SocketAddr, String>>,
    r: Result<KeyPlan, Failure>,
)
    requires
        is_initial(file, key_path, salt),
        key_plan(file.key->0, r),
    ensures
        loaded(file, static_secret, default_psk, inputs, locals) matches Ok((servers, forwards, tun))
            && servers.len() == 0 && forwards.len() == 0 && tun == (TunConfig {
            addr: Ipv4Addr { bits: 0x0a63_0001 },
            prefix: 24,
            mtu: 1420,
        }),
        file.key is Some,
        r matches Ok(KeyPlan::Passphrase { salt: s, env }) && s@ == salt && common::opt_text(env)
            == Some("HYPERION_PASSPHRASE"@),
        file.knock.enabled && file.knock.port is None,
        file.admin_static_key_file@ == key_path,
        file.pool_size is None,
{
    let ip = Ipv4Addr { bits: 0x0a63_0001 };
    net::octets_of_an_address(10, 99, 0, 1);
    reveal_strlit("10.99.0.1");
    reveal_with_fuel(text::decimal, 3);
    assert(text::decimal(10) =~= seq!['1', '0']);
    assert(text::decimal(99) =~= seq!['9', '9']);
    assert(text::decimal(0) =~= seq!['0']);
    assert(text::decimal(1) =~= seq!['1']);
    assert(net::dotted(ip) =~= "10.99.0.1"@);
    addresses::tun_section_is_read(file.tun, ip);
}

/// An address with a port: as it is if it has a colon, else with the default port.
pub open spec fn with_port(addr: Seq<char>) -> Seq<char> {
    if addr.contains(':') {
        addr
    } else {
        addr + ":"@ + text::decimal(crate::DEFAULT_LISTEN_PORT as nat)
    }
}

/// An address that names a port stays as it is; one that names none gets port 8443.
pub proof fn a_port_is_added_where_none_is(addr: Seq<char>)
    ensures
        (exists|i: int| 0 <= i < addr.len() && addr[i] == ':') ==> with_port(addr) == addr,
        (forall|i: int| 0 <= i < addr.len() ==> addr[i] != ':') ==> with_port(addr) == addr
            + ":8443"@,
{
    reveal_strlit(":8443");
    reveal_strlit(":");
    reveal_with_fuel(text::decimal, 5);
    assert(text::decimal(8443) =~= seq!['8', '4', '4', '3']);
    assert(":"@ + text::decimal(8443) =~= ":8443"@);
    assert(addr + ":"@ + text::decimal(8443) =~= addr + ":8443"@);
}

/// An address with a port.
pub fn normalize_addr(addr: &str) -> (r: String)
    ensures
        r@ == with_port(addr@),
{
    if text::has_char(addr, ':') {
        addr.to_owned()
    } else {
        let mut out: String = text::concat2(addr, ":");
        text::push_decimal(&mut out, crate::DEFAULT_LISTEN_PORT as u64);
        out
    }
}

/// What a new server must have: an address and a public key. `refused` says why the address, with a
/// port, is none, if it is none.
pub fn check_new_server(addr: &str, refused: Option<&str>, server_pubkey: &str) -> (r: Result<
    (),
    Failure,
>)
    ensures
        failure::outcome(r) == (match refused {
            Some(why) => Err(seq![why@, "invalid server addr "@ + addr@]),
            None => match keys::key_of(server_pubkey@) {
                Err(e) => Err(seq![error::message(e), "invalid server_pubkey"@]),
                Ok(_) => Ok(()),
            },
        }),
{
    if let Some(why) = refused {
        return Err(Failure::because(why, text::concat2("invalid server addr ", addr)));
    }
    match PublicKey::from_base64(server_pubkey) {
        Ok(_) => Ok(()),
        Err(e) => Err(Failure::caused_by(e, "invalid server_pubkey".to_owned())),
    }
}

/// A section as texts.
pub struct SectionView {
    pub name: Seq<char>,
    pub addr: Seq<char>,
    pub server_pubkey: Seq<char>,
    pub virtual_ip: Option<Seq<char>>,
    pub key_env: Option<Seq<char>>,
    pub key_value: Option<Seq<char>>,
    pub pool_size: Option<usize>,
}

impl View for ServerSection {
    type V = SectionView;

    open spec fn view(&self) -> SectionView {
        SectionView {
            name: self.name@,
            addr: self.addr@,
            server_pubkey: self.server_pubkey@,
            virtual_ip: common::opt_text(self.virtual_ip),
            key_env: common::opt_text(self.key_env),
            key_value: common::opt_text(self.key_value),
            pool_size: self.pool_size,
        }
    }
}

/// What is seen of a section is what it says.
pub proof fn sections_are_seen_whole(s: ServerSection)
    ensures
        s@.name == s.name@ && s@.addr == s.addr@ && s@.server_pubkey == s.server_pubkey@,
        s@.pool_size == s.pool_size,
        match s.virtual_ip {
            Some(t) => s@.virtual_ip == Some(t@),
            None => s@.virtual_ip is None,
        },
        match s.key_env {
            Some(t) => s@.key_env == Some(t@),
            None => s@.key_env is None,
        },
        match s.key_value {
            Some(t) => s@.key_value == Some(t@),
            None => s@.key_value is None,
        },
{
}

/// Whether there is a section with this name.
pub open spec fn has_section(servers: Seq<ServerSection>, name: Seq<char>) -> bool {
    exists|i: int| 0 <= i < servers.len() && (#[trigger] servers[i]).name@ == name
}

/// What adding a server gives: its virtual address, which no other server has.
pub open spec fn added(file: FileConfig, name: Seq<char>, server_pubkey: Seq<char>) -> Result<
    Ipv4Addr,
    Seq<Seq<char>>,
> {
    match keys::key_of(server_pubkey) {
        Err(e) => Err(seq![error::message(e), "invalid server_pubkey"@]),
        Ok(_) => if has_section(file.server@, name) {
            Err(seq!["server "@ + name + " already exists"@])
        } else {
            match addresses::tun_of(file.tun) {
                Err(e) => Err(e),
                Ok(tun) => match addresses::first_free(
                    tun,
                    addresses::used_ips(tun, file.server@),
                ) {
                    None => Err(seq!["no free virtual IP left in the tun subnet"@]),
                    Some(ip) => Ok(ip),
                },
            }
        },
    }
}

/// A server is added exactly if its public key is one, no other server has its name, and the TUN
/// device's subnet has an address for it; it has the lowest one that no other server has.
pub proof fn servers_are_added_while_there_is_room(
    file: FileConfig,
    name: Seq<char>,
    server_pubkey: Seq<char>,
)
    ensures
        added(file, name, server_pubkey) matches Ok(ip) ==> {
            &&& keys::key_of(server_pubkey) is Ok
            &&& forall|i: int| 0 <= i < file.server@.len() ==> (#[trigger] file.server@[i]).name@ != name
            &&& addresses::tun_of(file.tun) matches Ok(tun) && addresses::first_free(
                tun,
                addresses::used_ips(tun, file.server@),
            ) == Some(ip)
        },
        keys::key_of(server_pubkey) is Ok && (forall|i: int|
            0 <= i < file.server@.len() ==> (#[trigger] file.server@[i]).name@ != name) && (
        addresses::tun_of(file.tun) matches Ok(tun) && addresses::virtual_ips(
            tun,
            file.server@,
        ) is Ok && file.server@.len() < vstd::arithmetic::power2::pow2((32 - tun.prefix) as nat)
            - 12) ==> added(file, name, server_pubkey) is Ok,
        (exists|i: int| 0 <= i < file.server@.len() && (#[trigger] file.server@[i]).name@ == name)
            ==> added(file, name, server_pubkey) is Err,
{
    if let Ok(tun) = addresses::tun_of(file.tun) {
        if addresses::virtual_ips(tun, file.server@) is Ok && file.server@.len()
            < vstd::arithmetic::power2::pow2((32 - tun.prefix) as nat) - 12 {
            addresses::a_new_server_finds_room(tun, file.server@);
        }
    }
}

/// The section of a new server says its name, its address as given, its public key, and the virtual
/// address that it was added under, and takes all else from the file.
pub proof fn what_a_new_section_says(
    name: Seq<char>,
    addr: Seq<char>,
    server_pubkey: Seq<char>,
    ip: Ipv4Addr,
)
    ensures
        ({
            let s = new_section(name, addr, server_pubkey, ip);
            &&& s.name == name && s.addr == addr && s.server_pubkey == server_pubkey
            &&& s.virtual_ip == Some(net::dotted(ip))
            &&& s.key_env is None && s.key_value is None && s.pool_size is None
        }),
{
}

/// The addresses of the servers of a file, where they can be resolved.
pub open spec fn resolved(tun: TunSection, servers: Seq<ServerSection>) -> Option<Seq<Ipv4Addr>> {
    match addresses::tun_of(tun) {
        Err(_) => None,
        Ok(tun) => match addresses::virtual_ips(tun, servers) {
            Err(_) => None,
            Ok(ips) => Some(ips),
        },
    }
}

/// The addresses of the servers of a file can be resolved exactly if its TUN section can be read and
/// an address can be given out for every server, and they are those.
pub proof fn when_addresses_can_be_resolved(tun: TunSection, servers: Seq<ServerSection>)
    ensures
        resolved(tun, servers) matches Some(ips) ==> (addresses::tun_of(tun) matches Ok(t)
            && addresses::virtual_ips(t, servers) == Ok::<Seq<Ipv4Addr>, Seq<Seq<char>>>(ips)),
        addresses::tun_of(tun) matches Ok(t) ==> (addresses::virtual_ips(t, servers) matches Ok(ips)
            ==> resolved(tun, servers) == Some(ips)),
{
}

/// The section of a new server.
pub open spec fn new_section(
    name: Seq<char>,
    addr: Seq<char>,
    server_pubkey: Seq<char>,
    ip: Ipv4Addr,
) -> SectionView {
    SectionView {
        name,
        addr,
        server_pubkey,
        virtual_ip: Some(net::dotted(ip)),
        key_env: None,
        key_value: None,
        pool_size: None,
    }
}

/// A file with other servers.
pub open spec fn same_but_servers(a: FileConfig, b: FileConfig) -> bool {
    &&& a.admin_static_key_file == b.admin_static_key_file
    &&& a.pool_size == b.pool_size
    &&& a.key == b.key
    &&& a.knock == b.knock
    &&& a.tun == b.tun
    &&& a.forward == b.forward
}

/// Where only the servers of a file have changed, all else is as it was: the key's file, the pool, the
/// `[key]` section, knocks, the TUN device and the forwards.
pub proof fn what_else_a_file_holds(a: FileConfig, b: FileConfig)
    requires
        same_but_servers(a, b),
    ensures
        b == (FileConfig { server: b.server, ..a }),
{
}

fn section_exists(servers: &Vec<ServerSection>, name: &str) -> (r: bool)
    ensures
        r == has_section(servers@, name@),
{
    let mut i: usize = 0;
    while i < servers.len()
        invariant
            i <= servers@.len(),
            forall|j: int| 0 <= j < i ==> (#[trigger] servers@[j]).name@ != name@,
        decreases servers@.len() - i,
    {
        if text::same(servers[i].name.as_str(), name) {
            return true;
        }
        i = i + 1;
    }
    false
}

/// Adds a server under the lowest free virtual address; `addr` is its address as it is to be
/// written. The other servers keep their addresses.
pub fn add_server(file: &mut FileConfig, name: &str, addr: &str, server_pubkey: &str) -> (r: Result<
    Ipv4Addr,
    Failure,
>)
    ensures
        failure::outcome(r) == added(*old(file), name@, server_pubkey@),
        same_but_servers(*old(file), *final(file)),
        match r {
            Ok(ip) => exists|s: ServerSection|
                s@ == #[trigger] new_section(name@, addr@, server_pubkey@, ip)
                    && final(file).server@ == old(file).server@.push(s),
            Err(_) => final(file).server@ == old(file).server@,
        },
        r matches Ok(ip) ==> resolved(final(file).tun, final(file).server@) == (match resolved(
            old(file).tun,
            old(file).server@,
        ) {
            Some(ips) => Some(ips.push(ip)),
            None => None,
        }),
{
    if let Err(e) = PublicKey::from_base64(server_pubkey) {
        return Err(Failure::caused_by(e, "invalid server_pubkey".to_owned()));
    }
    if section_exists(&file.server, name) {
        return Err(Failure::new(text::concat3("server ", name, " already exists")));
    }
    let tun = match parse_tun(&file.tun) {
        Ok(t) => t,
        Err(e) => {
            return Err(e);
        },
    };
    let used = addresses_in_use(&tun, file.server.as_slice());
    let ip = match assign_virtual_ip(&tun, &used) {
        Some(ip) => ip,
        None => {
            return Err(Failure::of("no free virtual IP left in the tun subnet"));
        },
    };
    let s = ServerSection {
        name: name.to_owned(),
        addr: addr.to_owned(),
        server_pubkey: server_pubkey.to_owned(),
        virtual_ip: Some(ip.to_text()),
        key_env: None,
        key_value: None,
        pool_size: None,
    };
    assert(s@ == new_section(name@, addr@, server_pubkey@, ip));
    proof {
        if addresses::virtual_ips(tun, file.server@) is Ok {
            addresses::addresses_are_stable(tun, file.server@, s, ip);
        } else {
            addresses::failure_is_stable(tun, file.server@, s, ip);
        }
    }
    file.server.push(s);
    Ok(ip)
}

/// The sections with other names.
pub open spec fn others(servers: Seq<ServerSection>, name: Seq<char>) -> Seq<ServerSection> {
    servers.filter(|s: ServerSection| s.name@ != name)
}

/// The views of a list of sections.
pub open spec fn section_views(servers: Seq<ServerSection>) -> Seq<SectionView> {
    servers.map_values(|s: ServerSection| s@)
}

/// A section with its virtual address written down.
pub open spec fn written_down(s: SectionView, ip: Ipv4Addr) -> SectionView {
    SectionView {
        virtual_ip: match s.virtual_ip {
            Some(vip) => Some(vip),
            None => Some(net::dotted(ip)),
        },
        ..s
    }
}

/// The sections with the addresses of their servers written down, where those can be resolved.
pub open spec fn with_addresses(
    servers: Seq<ServerSection>,
    ips: Option<Seq<Ipv4Addr>>,
) -> Seq<SectionView> {
    Seq::new(
        servers.len(),
        |i: int|
            match ips {
                Some(ips) => written_down(servers[i]@, ips[i]),
                None => servers[i]@,
            },
    )
}

/// What is left of the sections when the servers with a name are removed: the others, each with its
/// address written down, so that it keeps it.
pub open spec fn left_over(
    servers: Seq<ServerSection>,
    ips: Option<Seq<Ipv4Addr>>,
    name: Seq<char>,
) -> Seq<SectionView> {
    with_addresses(servers, ips).filter(|s: SectionView| s.name != name)
}

/// The addresses of the servers with other names.
pub open spec fn other_ips(
    servers: Seq<ServerSection>,
    ips: Seq<Ipv4Addr>,
    name: Seq<char>,
) -> Seq<Ipv4Addr>
    decreases servers.len(),
{
    if servers.len() == 0 {
        Seq::empty()
    } else {
        let before = other_ips(servers.drop_last(), ips, name);
        if servers.last().name@ != name {
            before.push(ips[servers.len() - 1])
        } else {
            before
        }
    }
}

/// Writes the addresses of the servers down.
#[verifier::spinoff_prover]
#[verifier::rlimit(40)]
fn write_down(servers: &mut Vec<ServerSection>, ips: &Vec<Ipv4Addr>)
    requires
        ips@.len() == old(servers)@.len(),
    ensures
        section_views(final(servers)@) == with_addresses(old(servers)@, Some(ips@)),
{
    let ghost all = servers@;
    let mut i: usize = 0;
    while i < servers.len()
        invariant
            i <= servers@.len(),
            servers@.len() == all.len(),
            ips@.len() == all.len(),
            forall|j: int|
                0 <= j < i ==> (#[trigger] servers@[j])@ == written_down(all[j]@, ips@[j]),
            forall|j: int| i <= j < all.len() ==> #[trigger] servers@[j] == all[j],
        decreases all.len() - i,
    {
        if servers[i].virtual_ip.is_none() {
            let mut s = servers.remove(i);
            s.virtual_ip = Some(ips[i].to_text());
            servers.insert(i, s);
        }
        i = i + 1;
    }
    assert(section_views(servers@) =~= with_addresses(all, Some(ips@)));
}

/// The views of the sections with other names.
proof fn others_views(servers: Seq<ServerSection>, name: Seq<char>)
    ensures
        section_views(others(servers, name)) == section_views(servers).filter(
            |s: SectionView| s.name != name,
        ),
    decreases servers.len(),
{
    let keep = |s: ServerSection| s.name@ != name;
    let keep_view = |s: SectionView| s.name != name;
    reveal(Seq::filter);
    if servers.len() > 0 {
        let rest = servers.drop_last();
        others_views(rest, name);
        assert(section_views(servers).drop_last() =~= section_views(rest));
        assert(section_views(servers).last() == servers.last()@);
        if servers.last().name@ != name {
            assert(section_views(others(rest, name).push(servers.last())) =~= section_views(
                others(rest, name),
            ).push(servers.last()@));
        }
    } else {
        assert(section_views(others(servers, name)) =~= section_views(servers).filter(keep_view));
    }
}

/// The servers with other names have the addresses of the servers with other names.
proof fn others_have_other_ips(servers: Seq<ServerSection>, ips: Seq<Ipv4Addr>, name: Seq<char>)
    requires
        servers.len() <= ips.len(),
        forall|i: int|
            0 <= i < servers.len() ==> (#[trigger] servers[i]).virtual_ip is Some && net::ipv4_of(
                servers[i].virtual_ip->0@,
            ) == Some(ips[i]),
        forall|i: int, j: int| 0 <= i < j < ips.len() ==> #[trigger] ips[i] != #[trigger] ips[j],
    ensures
        ({
            let kept = others(servers, name);
            let kept_ips = other_ips(servers, ips, name);
            &&& kept.len() == kept_ips.len()
            &&& forall|i: int|
                0 <= i < kept.len() ==> (#[trigger] kept[i]).virtual_ip is Some && net::ipv4_of(
                    kept[i].virtual_ip->0@,
                ) == Some(kept_ips[i])
            &&& forall|i: int|
                0 <= i < kept_ips.len() ==> ips.take(servers.len() as int).contains(
                    #[trigger] kept_ips[i],
                )
            &&& forall|i: int, j: int|
                0 <= i < j < kept_ips.len() ==> #[trigger] kept_ips[i] != #[trigger] kept_ips[j]
        }),
    decreases servers.len(),
{
    reveal(Seq::filter);
    if servers.len() > 0 {
        let rest = servers.drop_last();
        let n = rest.len() as int;
        assert forall|i: int| 0 <= i < rest.len() implies (
        #[trigger] rest[i]).virtual_ip is Some && net::ipv4_of(rest[i].virtual_ip->0@) == Some(
            ips[i],
        ) by {
            assert(rest[i] == servers[i]);
        }
        others_have_other_ips(rest, ips, name);
        let before = other_ips(rest, ips, name);
        let kept = others(servers, name);
        let kept_ips = other_ips(servers, ips, name);
        assert(servers[n].virtual_ip is Some);
        assert forall|i: int| 0 <= i < kept_ips.len() implies ips.take(
            servers.len() as int,
        ).contains(#[trigger] kept_ips[i]) by {
            if i < before.len() {
                assert(before[i] == kept_ips[i]);
                let k = choose|k: int| 0 <= k < n && ips.take(n)[k] == before[i];
                assert(ips.take(n + 1)[k] == kept_ips[i]);
            } else {
                assert(ips.take(n + 1)[n] == kept_ips[i]);
            }
        }
        assert forall|i: int, j: int| 0 <= i < j < kept_ips.len() implies #[trigger] kept_ips[i]
            != #[trigger] kept_ips[j] by {
            assert(before[i] == kept_ips[i]);
            if j < before.len() {
                assert(before[j] == kept_ips[j]);
            } else {
                let k = choose|k: int| 0 <= k < n && ips.take(n)[k] == before[i];
                assert(ips[k] != ips[n]);
            }
        }
        assert forall|i: int| 0 <= i < kept.len() implies (
        #[trigger] kept[i]).virtual_ip is Some && net::ipv4_of(kept[i].virtual_ip->0@) == Some(
            kept_ips[i],
        ) by {
            if servers.last().name@ != name {
                assert(kept == others(rest, name).push(servers.last()));
                if i < before.len() {
                    assert(kept[i] == others(rest, name)[i]);
                }
            }
        }
    }
}

proof fn other_ips_by_name(
    a: Seq<ServerSection>,
    b: Seq<ServerSection>,
    ips: Seq<Ipv4Addr>,
    name: Seq<char>,
)
    requires
        a.len() == b.len(),
        forall|i: int| 0 <= i < a.len() ==> (#[trigger] a[i]).name@ == b[i].name@,
    ensures
        other_ips(a, ips, name) == other_ips(b, ips, name),
    decreases a.len(),
{
    if a.len() > 0 {
        let n = a.len() - 1;
        assert forall|i: int| 0 <= i < n implies (#[trigger] a.drop_last()[i]).name@
            == b.drop_last()[i].name@ by {
            assert(a[i].name@ == b[i].name@);
        }
        other_ips_by_name(a.drop_last(), b.drop_last(), ips, name);
        assert(a[n].name@ == b[n].name@);
    }
}

/// Servers whose addresses are written down keep them when others are removed.
proof fn removal_keeps_addresses(
    tun: TunConfig,
    servers: Seq<ServerSection>,
    written: Seq<ServerSection>,
    ips: Seq<Ipv4Addr>,
    name: Seq<char>,
)
    requires
        1 <= tun.prefix <= 32,
        addresses::virtual_ips(tun, servers) == Ok::<Seq<Ipv4Addr>, Seq<Seq<char>>>(ips),
        section_views(written) == with_addresses(servers, Some(ips)),
    ensures
        addresses::virtual_ips(tun, others(written, name)) == Ok::<Seq<Ipv4Addr>, Seq<Seq<char>>>(
            other_ips(servers, ips, name),
        ),
{
    addresses::virtual_ips_are_distinct(tun, servers);
    assert(section_views(written).len() == written.len());
    assert forall|i: int| 0 <= i < written.len() implies (
    #[trigger] written[i]).virtual_ip is Some && net::ipv4_of(written[i].virtual_ip->0@) == Some(
        ips[i],
    ) && written[i].name@ == servers[i].name@ by {
        assert(section_views(written)[i] == written[i]@);
        assert(with_addresses(servers, Some(ips))[i] == written_down(servers[i]@, ips[i]));
        net::dotted_round_trip(ips[i]);
    }
    others_have_other_ips(written, ips, name);
    other_ips_by_name(written, servers, ips, name);
    addresses::written_down_is_given(tun, others(written, name), other_ips(servers, ips, name));
}

/// Removes every server with the given name. The other servers keep their addresses: those that
/// were not written down are written down.
pub fn remove_server(file: &mut FileConfig, name: &str) -> (r: Result<(), Failure>)
    ensures
        same_but_servers(*old(file), *final(file)),
        failure::outcome(r) == (if has_section(old(file).server@, name@) {
            Ok(())
        } else {
            Err(seq!["no server named "@ + name@])
        }),
        match r {
            Ok(_) => section_views(final(file).server@) == left_over(
                old(file).server@,
                resolved(old(file).tun, old(file).server@),
                name@,
            ),
            Err(_) => final(file).server@ == old(file).server@,
        },
        r is Ok ==> (resolved(old(file).tun, old(file).server@) matches Some(ips) ==> resolved(
            final(file).tun,
            final(file).server@,
        ) == Some(other_ips(old(file).server@, ips, name@))),
{
    if !section_exists(&file.server, name) {
        return Err(Failure::new(text::concat2("no server named ", name)));
    }
    let ghost before = file.server@;
    let ghost ips = resolved(file.tun, before);
    assert(section_views(before) =~= with_addresses(before, None));
    if let Ok(tun) = parse_tun(&file.tun) {
        if let Ok(given) = resolve_virtual_ips(&tun, file.server.as_slice()) {
            write_down(&mut file.server, &given);
        }
    }
    let ghost all = file.server@;
    assert(section_views(all) == with_addresses(before, ips));
    let ghost keep = |s: ServerSection| s.name@ != name@;
    let mut i: usize = 0;
    let ghost mut n: int = 0;
    proof {
        reveal(Seq::filter);
        assert(all.take(0).filter(keep) + all.skip(0) =~= all);
        assert(all.take(0).filter(keep) =~= Seq::<ServerSection>::empty());
    }
    while i < file.server.len()
        invariant
            same_but_servers(*old(file), *file),
            keep == (|s: ServerSection| s.name@ != name@),
            0 <= n <= all.len(),
            i == all.take(n).filter(keep).len(),
            file.server@ == all.take(n).filter(keep) + all.skip(n),
        decreases all.len() - n,
    {
        proof {
            assert(file.server@[i as int] == all[n]);
            assert(all.take(n + 1).drop_last() =~= all.take(n));
            reveal(Seq::filter);
        }
        let ghost kept = all.take(n).filter(keep);
        if text::same(file.server[i].name.as_str(), name) {
            let _ = file.server.remove(i);
            proof {
                assert(all.take(n + 1).filter(keep) == kept);
                assert(file.server@ =~= kept + all.skip(n + 1));
            }
        } else {
            i = i + 1;
            proof {
                assert(all.take(n + 1).filter(keep) =~= kept.push(all[n]));
                assert(file.server@ =~= kept.push(all[n]) + all.skip(n + 1));
            }
        }
        proof {
            n = n + 1;
        }
    }
    proof {
        assert(n == all.len());
        assert(all.take(n) =~= all);
        assert(file.server@ =~= others(all, name@));
        others_views(all, name@);
        if ips is Some {
            removal_keeps_addresses(
                addresses::tun_of(file.tun)->Ok_0,
                before,
                all,
                ips->0,
                name@,
            );
        }
    }
    Ok(())
}

/// Removing the servers with a name leaves all the others and none of those, in the same order, each
/// as it was but for its virtual address, which is written down where it can be resolved; and each
/// keeps that address. What is given back is where each of them stood.
pub proof fn removal_leaves_the_others(
    servers: Seq<ServerSection>,
    ips: Option<Seq<Ipv4Addr>>,
    name: Seq<char>,
) -> (from: Seq<int>)
    ensures
        ({
            let left = left_over(servers, ips, name);
            &&& left.len() == from.len()
            &&& forall|i: int, j: int|
                0 <= i < j < from.len() ==> #[trigger] from[i] < #[trigger] from[j]
            &&& forall|i: int|
                0 <= i < servers.len() && (#[trigger] servers[i]).name@ != name ==> from.contains(i)
            &&& forall|k: int|
                0 <= k < from.len() ==> 0 <= #[trigger] from[k] < servers.len()
                    && servers[from[k]].name@ != name && left[k].name == servers[from[k]].name@
                    && left[k].addr == servers[from[k]].addr@ && left[k].server_pubkey
                    == servers[from[k]].server_pubkey@ && left[k].key_env == common::opt_text(
                    servers[from[k]].key_env,
                ) && left[k].key_value == common::opt_text(servers[from[k]].key_value)
                    && left[k].pool_size == servers[from[k]].pool_size
            &&& forall|k: int|
                0 <= k < from.len() ==> left[k].virtual_ip == (match (
                    servers[#[trigger] from[k]].virtual_ip,
                    ips,
                ) {
                    (Some(vip), _) => Some(vip@),
                    (None, Some(all)) => Some(net::dotted(all[from[k]])),
                    (None, None) => None,
                })
            &&& ips matches Some(all) ==> other_ips(servers, all, name).len() == from.len()
                && forall|k: int|
                0 <= k < from.len() ==> other_ips(servers, all, name)[k] == all[#[trigger] from[k]]
        }),
        has_section(servers, name) <==> exists|i: int|
            0 <= i < servers.len() && (#[trigger] servers[i]).name@ == name,
    decreases servers.len(),
{
    reveal(Seq::filter);
    if servers.len() == 0 {
        Seq::empty()
    } else {
        let rest = servers.drop_last();
        let n = rest.len() as int;
        let before = removal_leaves_the_others(rest, ips, name);
        assert(with_addresses(servers, ips).drop_last() =~= with_addresses(rest, ips));
        let last = with_addresses(servers, ips).last();
        assert(last.name == servers[n].name@);
        assert forall|i: int| 0 <= i < n implies #[trigger] servers[i] == rest[i] by {}
        if servers[n].name@ != name {
            let from = before.push(n);
            assert forall|i: int|
                0 <= i < servers.len() && (
                #[trigger] servers[i]).name@ != name implies from.contains(i) by {
                if i < n {
                    assert(rest[i].name@ != name);
                    let k = choose|k: int| 0 <= k < before.len() && before[k] == i;
                    assert(from[k] == i);
                } else {
                    assert(from[before.len() as int] == n);
                }
            }
            from
        } else {
            assert forall|i: int|
                0 <= i < servers.len() && (
                #[trigger] servers[i]).name@ != name implies before.contains(i) by {
                assert(rest[i].name@ != name);
            }
            before
        }
    }
}

/// Removing a server that was just added gives back the servers there were before, each with its
/// address written down where the addresses can be resolved.
pub proof fn remove_undoes_add(
    tun: TunSection,
    servers: Seq<ServerSection>,
    s: ServerSection,
    name: Seq<char>,
    ip: Ipv4Addr,
)
    requires
        !has_section(servers, name),
        s.name@ == name,
        resolved(tun, servers.push(s)) == (match resolved(tun, servers) {
            Some(ips) => Some(ips.push(ip)),
            None => None,
        }),
    ensures
        left_over(servers.push(s), resolved(tun, servers.push(s)), name) == with_addresses(
            servers,
            resolved(tun, servers),
        ),
{
    let keep = |x: SectionView| x.name != name;
    let before = with_addresses(servers, resolved(tun, servers));
    let all = with_addresses(servers.push(s), resolved(tun, servers.push(s)));
    reveal(Seq::filter);
    if resolved(tun, servers) is Some {
        addresses::virtual_ips_are_distinct(addresses::tun_of(tun)->Ok_0, servers);
    }
    assert(all.drop_last() =~= before);
    assert(all.last().name == name);
    assert forall|i: int| 0 <= i < before.len() implies (#[trigger] before[i]).name != name by {
        assert(servers[i].name@ != name);
    }
    none_is_dropped(before, name);
}

/// Removing a name that no server has leaves all of them.
proof fn none_is_dropped(views: Seq<SectionView>, name: Seq<char>)
    requires
        forall|i: int| 0 <= i < views.len() ==> (#[trigger] views[i]).name != name,
    ensures
        views.filter(|s: SectionView| s.name != name) == views,
    decreases views.len(),
{
    reveal(Seq::filter);
    if views.len() > 0 {
        let rest = views.drop_last();
        assert forall|i: int| 0 <= i < rest.len() implies (#[trigger] rest[i]).name != name by {
            assert(views[i].name != name);
        }
        none_is_dropped(rest, name);
        assert(views[views.len() - 1].name != name);
        assert(rest.push(views.last()) =~= views);
    }
}

/// Whether an earlier forward has the local address of the forward at `i`.
pub open spec fn repeats(forwards: Seq<ForwardView>, i: int) -> bool {
    exists|j: int| 0 <= j < i && (#[trigger] forwards[j]).local == forwards[i].local
}

/// Whether `a` is the first local address that comes again.
pub open spec fn first_repeated(forwards: Seq<ForwardView>, a: SocketAddr) -> bool {
    exists|i: int|
        0 <= i < forwards.len() && forwards[i].local == a && #[trigger] repeats(forwards, i)
            && forall|k: int| 0 <= k < i ==> !#[trigger] repeats(forwards, k)
}

/// Checks that no two forwards have the same local address; otherwise gives the first address that
/// comes again.
pub fn check_duplicate_locals(forwards: &[ForwardEntry]) -> (r: Result<(), SocketAddr>)
    ensures
        match r {
            Ok(_) => forall|i: int, j: int|
                0 <= i < j < forwards@.len() ==> (#[trigger] forwards@[i]).local != (
                #[trigger] forwards@[j]).local,
            Err(a) => first_repeated(forward_views(forwards@), a),
        },
{
    let ghost views = forward_views(forwards@);
    assert(forall|k: int| 0 <= k < views.len() ==> (#[trigger] views[k]).local == forwards@[k].local);
    let mut i: usize = 0;
    while i < forwards.len()
        invariant
            i <= forwards@.len(),
            views == forward_views(forwards@),
            views.len() == forwards@.len(),
            forall|k: int|
                0 <= k < views.len() ==> (#[trigger] views[k]).local == forwards@[k].local,
            forall|k: int| 0 <= k < i ==> !#[trigger] repeats(views, k),
        decreases forwards@.len() - i,
    {
        let mut j: usize = 0;
        while j < i
            invariant
                j <= i < forwards@.len(),
                views == forward_views(forwards@),
                views.len() == forwards@.len(),
                forall|k: int|
                    0 <= k < views.len() ==> (#[trigger] views[k]).local == forwards@[k].local,
                forall|k: int| 0 <= k < i ==> !#[trigger] repeats(views, k),
                forall|k: int| 0 <= k < j ==> (#[trigger] views[k]).local != views[i as int].local,
            decreases i - j,
        {
            assert(views[j as int].local == forwards@[j as int].local);
            assert(views[i as int].local == forwards@[i as int].local);
            if forwards[j].local == forwards[i].local {
                assert(repeats(views, i as int));
                return Err(forwards[i].local);
            }
            j = j + 1;
        }
        i = i + 1;
    }
    assert forall|a: int, b: int| 0 <= a < b < forwards@.len() implies (
    #[trigger] forwards@[a]).local != (#[trigger] forwards@[b]).local by {
        assert(!repeats(views, b));
        assert(views[a].local == forwards@[a].local && views[b].local == forwards@[b].local);
    }
    Ok(())
}

/// What `-L local_port:server:remote_port` stands for.
pub open spec fn forward_of(spec_text: Seq<char>) -> Result<ForwardView, Seq<Seq<char>>> {
    let parts = text::split_on(spec_text, ':');
    if parts.len() != 3 {
        Err(seq!["-L expects local_port:server:remote_port"@])
    } else {
        match (text::number_or_why(parts[0], 0xffff), text::number_or_why(parts[2], 0xffff)) {
            (Err(why), _) => Err(seq![why, "bad local port in -L"@]),
            (Ok(_), Err(why)) => Err(seq![why, "bad remote port in -L"@]),
            (Ok(local), Ok(remote)) => Ok(
                ForwardView {
                    local: net::endpoint(IpAddr::V4(net::loopback()), local as u16),
                    server: parts[1],
                    remote_port: remote as u16,
                },
            ),
        }
    }
}

/// Reads `local_port:server:remote_port`.
pub fn parse_forward_spec(spec_text: &str) -> (r: Result<ForwardEntry, Failure>)
    ensures
        match r {
            Ok(f) => forward_of(spec_text@) == Ok::<ForwardView, Seq<Seq<char>>>(f@),
            Err(e) => forward_of(spec_text@) == Err::<ForwardView, Seq<Seq<char>>>(e@),
        },
{
    let parts = text::split(spec_text, ':');
    let ghost t = text::texts(parts@);
    if parts.len() != 3 {
        return Err(Failure::of("-L expects local_port:server:remote_port"));
    }
    assert(t[0] == parts@[0]@ && t[1] == parts@[1]@ && t[2] == parts@[2]@);
    let local: u16 = match text::read_u16(parts[0].as_str()) {
        Ok(p) => p,
        Err(why) => {
            return Err(Failure::because(why, "bad local port in -L".to_owned()));
        },
    };
    let remote: u16 = match text::read_u16(parts[2].as_str()) {
        Ok(p) => p,
        Err(why) => {
            return Err(Failure::because(why, "bad remote port in -L".to_owned()));
        },
    };
    Ok(
        ForwardEntry {
            local: SocketAddr::new(IpAddr::V4(Ipv4Addr { bits: 0x7f00_0001 }), local),
            server: parts[1].clone(),
            remote_port: remote,
        },
    )
}

/// A forward written as `local_port:server:remote_port` reads back as that forward, if the server's
/// name has no colon.
pub proof fn forward_spec_round_trip(local: u16, server: Seq<char>, remote: u16)
    requires
        !server.contains(':'),
    ensures
        forward_of(
            text::joined(
                seq![text::decimal(local as nat), server, text::decimal(remote as nat)],
                seq![':'],
            ),
        ) == Ok::<ForwardView, Seq<Seq<char>>>(
            ForwardView {
                local: net::endpoint(IpAddr::V4(net::loopback()), local),
                server,
                remote_port: remote,
            },
        ),
{
    let parts = seq![text::decimal(local as nat), server, text::decimal(remote as nat)];
    text::decimal_is_canonical(local as nat);
    text::decimal_is_canonical(remote as nat);
    text::u16_round_trip(local);
    text::u16_round_trip(remote);
    text::number_or_why_is_exact(text::decimal(local as nat), 0xffff);
    text::number_or_why_is_exact(text::decimal(remote as nat), 0xffff);
    assert forall|i: int| 0 <= i < parts.len() implies !(#[trigger] parts[i]).contains(':') by {
        if parts[i].contains(':') {
            let j = choose|j: int| 0 <= j < parts[i].len() && parts[i][j] == ':';
            if i != 1 {
                assert(text::is_digit(parts[i][j]));
            }
        }
    }
    text::split_of_join(parts, ':');
}

/// A `-L` argument that is a port, a server's name and a port, with colons between them, is a forward
/// from that port of 127.0.0.1 to the other port of that server.
pub proof fn forward_arguments_are_read(a: Seq<char>, server: Seq<char>, b: Seq<char>)
    requires
        !a.contains(':') && !server.contains(':') && !b.contains(':'),
        text::number_of(a, 0xffff) is Some,
        text::number_of(b, 0xffff) is Some,
    ensures
        forward_of(a + seq![':'] + server + seq![':'] + b) matches Ok(f) && {
            &&& f.local.ip == IpAddr::V4(Ipv4Addr { bits: 0x7f00_0001 })
            &&& f.local.flowinfo == 0 && f.local.scope_id == 0
            &&& text::number_of(a, 0xffff) == Some(f.local.port as nat)
            &&& f.server == server
            &&& text::number_of(b, 0xffff) == Some(f.remote_port as nat)
        },
{
    let parts = seq![a, server, b];
    text::number_or_why_is_exact(a, 0xffff);
    text::number_or_why_is_exact(b, 0xffff);
    text::split_of_join(parts, ':');
    reveal_with_fuel(text::joined, 4);
    assert(parts.drop_last() =~= seq![a, server]);
    assert(seq![a, server].drop_last() =~= seq![a]);
    assert(text::joined(parts, seq![':']) =~= a + seq![':'] + server + seq![':'] + b);
}

/// No other `-L` argument is a forward.
pub proof fn only_forward_arguments_are_read(t: Seq<char>)
    ensures
        forward_of(t) is Ok ==> exists|a: Seq<char>, server: Seq<char>, b: Seq<char>|
            t == #[trigger] (a + seq![':'] + server + seq![':'] + b) && !a.contains(':')
                && !server.contains(':') && !b.contains(':') && text::number_of(a, 0xffff) is Some
                && text::number_of(b, 0xffff) is Some,
{
    let parts = text::split_on(t, ':');
    if forward_of(t) is Ok {
        text::split_pieces(t, ':');
        text::join_of_split(t, ':');
        let a = parts[0];
        let server = parts[1];
        let b = parts[2];
        text::number_or_why_is_exact(a, 0xffff);
        text::number_or_why_is_exact(b, 0xffff);
        reveal_with_fuel(text::joined, 4);
        assert(parts =~= seq![a, server, b]);
        assert(parts.drop_last() =~= seq![a, server]);
        assert(seq![a, server].drop_last() =~= seq![a]);
        assert(t =~= a + seq![':'] + server + seq![':'] + b);
    }
}

/// Why a `-L` argument is no forward: it has not three parts, or the first of them is no port, or else
/// the last of them is none.
pub proof fn why_an_argument_is_no_forward(t: Seq<char>, a: Seq<char>, server: Seq<char>, b: Seq<char>)
    ensures
        text::split_on(t, ':').len() != 3 ==> forward_of(t) == Err::<ForwardView, Seq<Seq<char>>>(
            seq!["-L expects local_port:server:remote_port"@],
        ),
        text::split_on(t, ':') == seq![a, server, b] ==> {
            &&& text::number_or_why(a, 0xffff) matches Err(why) ==> forward_of(t) == Err::<
                ForwardView,
                Seq<Seq<char>>,
            >(seq![why, "bad local port in -L"@])
            &&& text::number_or_why(a, 0xffff) is Ok ==> (text::number_or_why(b, 0xffff) matches Err(
                why,
            ) ==> forward_of(t) == Err::<ForwardView, Seq<Seq<char>>>(
                seq![why, "bad remote port in -L"@],
            ))
        },
{
}

/// The first address that comes again is one that two forwards have; before the second of them no
/// address comes twice.
pub proof fn what_comes_again(forwards: Seq<ForwardView>, a: SocketAddr)
    ensures
        first_repeated(forwards, a) <==> exists|i: int, j: int|
            0 <= i < j < forwards.len() && (#[trigger] forwards[i]).local == a && (
            #[trigger] forwards[j]).local == a && forall|k: int, l: int|
                0 <= k < l < j ==> (#[trigger] forwards[k]).local != (#[trigger] forwards[l]).local,
{
    if first_repeated(forwards, a) {
        let j = choose|j: int|
            0 <= j < forwards.len() && forwards[j].local == a && #[trigger] repeats(forwards, j)
                && forall|k: int| 0 <= k < j ==> !#[trigger] repeats(forwards, k);
        let i = choose|i: int| 0 <= i < j && (#[trigger] forwards[i]).local == forwards[j].local;
        assert(forwards[i].local == a && forwards[j].local == a);
        assert forall|k: int, l: int| 0 <= k < l < j implies (#[trigger] forwards[k]).local != (
        #[trigger] forwards[l]).local by {
            assert(!repeats(forwards, l));
        }
    }
    if exists|i: int, j: int|
        0 <= i < j < forwards.len() && (#[trigger] forwards[i]).local == a && (
        #[trigger] forwards[j]).local == a && forall|k: int, l: int|
            0 <= k < l < j ==> (#[trigger] forwards[k]).local != (#[trigger] forwards[l]).local {
        let (i, j) = choose|i: int, j: int|
            0 <= i < j < forwards.len() && (#[trigger] forwards[i]).local == a && (
            #[trigger] forwards[j]).local == a && forall|k: int, l: int|
                0 <= k < l < j ==> (#[trigger] forwards[k]).local != (#[trigger] forwards[l]).local;
        assert(repeats(forwards, j));
        assert forall|l: int| 0 <= l < j implies !#[trigger] repeats(forwards, l) by {
            if repeats(forwards, l) {
                let k = choose|k: int|
                    0 <= k < l && (#[trigger] forwards[k]).local == forwards[l].local;
                assert(forwards[k].local != forwards[l].local);
            }
        }
    }
}

/// The addresses of the servers.
pub fn server_ips(loaded: &LoadedClient) -> (r: Vec<IpAddr>)
    ensures
        r@.len() == loaded.servers@.len(),
        forall|i: int| 0 <= i < r@.len() ==> #[trigger] r@[i] == loaded.servers@[i].addr.ip,
{
    let mut out: Vec<IpAddr> = Vec::new();
    let mut i: usize = 0;
    while i < loaded.servers.len()
        invariant
            i <= loaded.servers@.len(),
            out@.len() == i,
            forall|j: int| 0 <= j < i ==> #[trigger] out@[j] == loaded.servers@[j].addr.ip,
        decreases loaded.servers@.len() - i,
    {
        out.push(loaded.servers[i].addr.ip());
        i = i + 1;
    }
    out
}

} // verus!
