//! The server's configuration.
use crate::common;
use crate::failure::{self, Failure};
use crate::net::SocketAddr;
use crate::secret;
use crate::text;
use crate::tunnel::error;
use crate::tunnel::keys::{self, Keypair, PublicKey, SecretKey};
use crate::tunnel::psk::Psk;
use crate::tunnel::server::{Egress, ServerConfig};
use crate::tunnel::{crypto, encoding};
use vstd::prelude::*;

verus! {

broadcast use vstd::seq_lib::group_seq_properties;

/// The configuration file.
pub struct FileConfig {
    pub listen: String,
    pub key: KeySource,
    pub identity: Identity,
    pub egress: EgressSection,
    pub limits: Limits,
    pub knock: KnockSection,
    pub firewall: FirewallSection,
}

pub struct KnockSection {
    pub enabled: bool,
    pub knock_port: Option<u16>,
    pub window_secs: Option<u64>,
}

pub struct FirewallSection {
    pub table: String,
    pub set: String,
    pub ttl_secs: u64,
}

pub struct KeySource {
    pub source: String,
    pub env_var: Option<String>,
    pub file: Option<String>,
    pub value: Option<String>,
    pub passphrase_env: Option<String>,
    pub salt: Option<String>,
}

pub struct Identity {
    pub static_key_file: String,
    pub admin_pubkeys: Vec<String>,
}

pub struct EgressSection {
    pub allow: Vec<u16>,
}

pub struct Limits {
    pub handshake_timeout_ms: u64,
}

pub fn default_table() -> (r: String)
    ensures
        r@ == "hyperion"@,
{
    "hyperion".to_owned()
}

pub fn default_set() -> (r: String)
    ensures
        r@ == "knock_allow"@,
{
    "knock_allow".to_owned()
}

pub fn default_ttl() -> (r: u64)
    ensures
        r == 60,
{
    60
}

pub fn default_handshake_ms() -> (r: u64)
    ensures
        r == 3000,
{
    3000
}

impl Default for KnockSection {
    fn default() -> (r: Self)
        ensures
            !r.enabled,
            r.knock_port is None,
            r.window_secs is None,
    {
        KnockSection { enabled: false, knock_port: None, window_secs: None }
    }
}

impl Default for FirewallSection {
    fn default() -> (r: Self)
        ensures
            r.table@ == "hyperion"@,
            r.set@ == "knock_allow"@,
            r.ttl_secs == 60,
    {
        FirewallSection { table: default_table(), set: default_set(), ttl_secs: default_ttl() }
    }
}

impl Default for EgressSection {
    fn default() -> (r: Self)
        ensures
            r.allow@.len() == 0,
    {
        EgressSection { allow: Vec::new() }
    }
}

impl Default for Limits {
    fn default() -> (r: Self)
        ensures
            r.handshake_timeout_ms == 3000,
    {
        Limits { handshake_timeout_ms: default_handshake_ms() }
    }
}

/// A configuration that can be used.
pub struct LoadedConfig {
    pub listen: SocketAddr,
    pub server: ServerConfig,
    pub knock: Option<KnockRuntime>,
}

/// What the listener for knocks needs.
pub struct KnockRuntime {
    pub knock_port: u16,
    pub tunnel_port: u16,
    pub psk: Psk,
    pub server_pub: PublicKey,
    pub window_secs: u64,
    pub table: String,
    pub set: String,
    pub ttl_secs: u64,
}

/// What is shown of a configuration.
pub struct Summary {
    pub listen: String,
    pub knock_enabled: bool,
    pub egress: Vec<u16>,
    pub admin_count: usize,
    pub key_is_passphrase: bool,
    pub passphrase_env: Option<String>,
}

/// Where the pre-shared key comes from.
pub enum KeyPlan {
    /// A passphrase, from the named variable or asked for, stretched with the salt.
    Passphrase { salt: String, env: Option<String> },
    /// The named variable.
    Env { var: String },
    /// The file at this path.
    File { path: String },
    /// The configuration itself.
    Value { b64: String },
}

/// Where the `[key]` section takes the key from.
pub open spec fn key_plan(k: KeySource, r: Result<KeyPlan, Failure>) -> bool {
    if k.source@ == "passphrase"@ {
        match k.salt {
            None => r matches Err(e) && e@ == seq!["key.source = passphrase requires key.salt"@],
            Some(s) => r matches Ok(KeyPlan::Passphrase { salt, env }) && salt@ == s@
                && common::opt_text(env) == common::opt_text(k.passphrase_env),
        }
    } else if k.source@ == "env"@ {
        match k.env_var {
            None => r matches Err(e) && e@ == seq!["key.source = env requires key.env_var"@],
            Some(v) => r matches Ok(KeyPlan::Env { var }) && var@ == v@,
        }
    } else if k.source@ == "file"@ {
        match k.file {
            None => r matches Err(e) && e@ == seq!["key.source = file requires key.file"@],
            Some(p) => r matches Ok(KeyPlan::File { path }) && path@ == p@,
        }
    } else if k.source@ == "value"@ {
        match k.value {
            None => r matches Err(e) && e@ == seq!["key.source = value requires key.value"@],
            Some(v) => r matches Ok(KeyPlan::Value { b64 }) && b64@ == v@,
        }
    } else {
        r matches Err(e) && e@ == seq!["unknown key.source: "@ + k.source@]
    }
}

/// Where the `[key]` section takes the key from.
pub fn plan_key(key: &KeySource) -> (r: Result<KeyPlan, Failure>)
    ensures
        key_plan(*key, r),
{
    if text::same(key.source.as_str(), "passphrase") {
        return match &key.salt {
            Some(salt) => Ok(
                KeyPlan::Passphrase { salt: salt.clone(), env: common::clone_opt(&key.passphrase_env) },
            ),
            None => Err(Failure::of("key.source = passphrase requires key.salt")),
        };
    }
    if text::same(key.source.as_str(), "env") {
        return match &key.env_var {
            Some(var) => Ok(KeyPlan::Env { var: var.clone() }),
            None => Err(Failure::of("key.source = env requires key.env_var")),
        };
    }
    if text::same(key.source.as_str(), "file") {
        return match &key.file {
            Some(path) => Ok(KeyPlan::File { path: path.clone() }),
            None => Err(Failure::of("key.source = file requires key.file")),
        };
    }
    if text::same(key.source.as_str(), "value") {
        return match &key.value {
            Some(v) => Ok(KeyPlan::Value { b64: v.clone() }),
            None => Err(Failure::of("key.source = value requires key.value")),
        };
    }
    Err(Failure::new(text::concat2("unknown key.source: ", key.source.as_str())))
}

/// The key that a plan gives: `material` is the passphrase, the contents of the file, or the value
/// of the variable, or why there is none.
pub open spec fn planned_psk(plan: KeyPlan, material: Result<Seq<char>, Seq<char>>) -> Result<
    Seq<u8>,
    Seq<Seq<char>>,
> {
    let given = match material {
        Ok(m) => m,
        Err(_) => Seq::empty(),
    };
    match plan {
        KeyPlan::Passphrase { salt, env } => secret::passphrase_psk(given, salt@),
        KeyPlan::Env { var } => match material {
            Err(why) => Err(seq![why, "env var "@ + var@ + " not set"@]),
            Ok(b64) => secret::psk_text(b64),
        },
        KeyPlan::File { path } => secret::psk_text(given),
        KeyPlan::Value { b64 } => secret::psk_text(b64@),
    }
}

/// The key that a plan gives.
pub fn load_psk(plan: &KeyPlan, material: Result<&str, &str>) -> (r: Result<Psk, Failure>)
    requires
        plan is Passphrase || plan is File ==> material is Ok,
    ensures
        ({
            let m = match material {
                Ok(t) => Ok(t@),
                Err(why) => Err(why@),
            };
            match r {
                Ok(k) => planned_psk(*plan, m) == Ok::<Seq<u8>, Seq<Seq<char>>>(k@),
                Err(e) => planned_psk(*plan, m) == Err::<Seq<u8>, Seq<Seq<char>>>(e@),
            }
        }),
{
    let given = match material {
        Ok(m) => m,
        Err(_) => "",
    };
    match plan {
        KeyPlan::Passphrase { salt, env: _ } => secret::derive_psk(given, salt.as_str()),
        KeyPlan::Env { var } => {
            match material {
                Ok(b64) => secret::parse_psk(b64),
                Err(why) => Err(
                    Failure::because(why, text::concat3("env var ", var.as_str(), " not set")),
                ),
            }
        },
        KeyPlan::File { path: _ } => secret::parse_psk(given),
        KeyPlan::Value { b64 } => secret::parse_psk(b64.as_str()),
    }
}

/// The address to listen on: `parsed` is what the file's text stands for, or why it is no address.
pub fn listen_addr(file: &FileConfig, parsed: Result<SocketAddr, &str>) -> (r: Result<
    SocketAddr,
    Failure,
>)
    ensures
        failure::outcome(r) == (match parsed {
            Ok(a) => Ok(a),
            Err(why) => Err(seq![why@, "invalid listen address: "@ + file.listen@]),
        }),
{
    match parsed {
        Ok(a) => Ok(a),
        Err(why) => Err(
            Failure::because(
                why,
                text::concat2("invalid listen address: ", file.listen.as_str()),
            ),
        ),
    }
}

/// The server's secret key, as read from its file.
pub fn parse_static_key(b64: &str) -> (r: Result<SecretKey, Failure>)
    ensures
        match keys::key_of(b64@) {
            Ok(k) => r matches Ok(s) && s@ == k,
            Err(e) => r matches Err(f) && f@ == seq![error::message(e), "invalid static key"@],
        },
{
    match SecretKey::from_base64(b64) {
        Ok(k) => Ok(k),
        Err(e) => Err(Failure::caused_by(e, "invalid static key".to_owned())),
    }
}

/// The keys of the first `n` admins.
pub open spec fn admins_of(pubkeys: Seq<String>, n: int) -> Result<Seq<Seq<u8>>, Seq<Seq<char>>>
    decreases n,
{
    if n <= 0 {
        Ok(Seq::empty())
    } else {
        match admins_of(pubkeys, n - 1) {
            Err(e) => Err(e),
            Ok(before) => match keys::key_of(pubkeys[n - 1]@) {
                Err(e) => Err(seq![error::message(e), "invalid admin pubkey"@]),
                Ok(k) => Ok(before.push(k)),
            },
        }
    }
}

proof fn admins_of_fails_early(pubkeys: Seq<String>, i: int, n: int)
    requires
        0 <= i <= n,
        admins_of(pubkeys, i) is Err,
    ensures
        admins_of(pubkeys, n) == admins_of(pubkeys, i),
    decreases n - i,
{
    if i < n {
        admins_of_fails_early(pubkeys, i + 1, n);
    }
}

/// The keys that a server lets in: all of them must be readable, and there must be one.
pub open spec fn allowed_admins(pubkeys: Seq<String>) -> Result<Seq<Seq<u8>>, Seq<Seq<char>>> {
    match admins_of(pubkeys, pubkeys.len() as int) {
        Err(e) => Err(e),
        Ok(admins) => if admins.len() == 0 {
            Err(seq!["identity.admin_pubkeys is empty — no admin could authenticate"@])
        } else {
            Ok(admins)
        },
    }
}

/// The bytes of a list of keys.
pub open spec fn key_views(v: Seq<PublicKey>) -> Seq<Seq<u8>> {
    v.map_values(|k: PublicKey| k@)
}

fn parse_admins(pubkeys: &Vec<String>) -> (r: Result<Vec<PublicKey>, Failure>)
    ensures
        match r {
            Ok(v) => allowed_admins(pubkeys@) == Ok::<Seq<Seq<u8>>, Seq<Seq<char>>>(key_views(v@)),
            Err(e) => allowed_admins(pubkeys@) == Err::<Seq<Seq<u8>>, Seq<Seq<char>>>(e@),
        },
{
    let mut out: Vec<PublicKey> = Vec::new();
    let mut i: usize = 0;
    assert(key_views(out@) =~= Seq::<Seq<u8>>::empty());
    while i < pubkeys.len()
        invariant
            i <= pubkeys@.len(),
            admins_of(pubkeys@, i as int) == Ok::<Seq<Seq<u8>>, Seq<Seq<char>>>(key_views(out@)),
        decreases pubkeys@.len() - i,
    {
        let ghost before = key_views(out@);
        match PublicKey::from_base64(pubkeys[i].as_str()) {
            Ok(k) => {
                out.push(k);
                assert(key_views(out@) =~= before.push(k@));
            },
            Err(e) => {
                proof {
                    admins_of_fails_early(pubkeys@, i + 1, pubkeys@.len() as int);
                }
                return Err(Failure::caused_by(e, "invalid admin pubkey".to_owned()));
            },
        }
        i = i + 1;
    }
    assert(key_views(out@).len() == out@.len());
    if out.len() == 0 {
        return Err(
            Failure::of("identity.admin_pubkeys is empty — no admin could authenticate"),
        );
    }
    Ok(out)
}

/// What a configuration loads as, once its admins are known.
pub open spec fn loads_as(
    file: FileConfig,
    listen: SocketAddr,
    psk: Seq<u8>,
    static_secret: Seq<u8>,
    admins: Seq<Seq<u8>>,
    c: LoadedConfig,
) -> bool {
    &&& c.listen == listen
    &&& c.server.static_secret@ == static_secret
    &&& c.server.psk@ == psk
    &&& key_views(c.server.allowed_admins@) == admins
    &&& c.server.egress@ == file.egress.allow@.to_set()
    &&& c.server.handshake_timeout_ms == file.limits.handshake_timeout_ms
    &&& c.knock is Some <==> file.knock.enabled
    &&& c.knock matches Some(k) ==> {
        &&& k.knock_port == match file.knock.knock_port {
            Some(p) => p,
            None => listen.port,
        }
        &&& k.tunnel_port == listen.port
        &&& k.psk@ == psk
        &&& k.server_pub@ == crypto::x25519_public(static_secret)
        &&& k.window_secs == match file.knock.window_secs {
            Some(w) => w,
            None => 30,
        }
        &&& k.table@ == file.firewall.table@
        &&& k.set@ == file.firewall.set@
        &&& k.ttl_secs == file.firewall.ttl_secs
    }
}

/// Loads a configuration file, with the address, the pre-shared key and the secret key that it
/// names.
pub fn load(file: &FileConfig, listen: SocketAddr, psk: Psk, static_secret: SecretKey) -> (r: Result<
    LoadedConfig,
    Failure,
>)
    ensures
        match allowed_admins(file.identity.admin_pubkeys@) {
            Err(e) => r matches Err(f) && f@ == e,
            Ok(admins) => r matches Ok(c) && loads_as(
                *file,
                listen,
                psk@,
                static_secret@,
                admins,
                c,
            ),
        },
        r is Ok <==> file.identity.admin_pubkeys@.len() > 0 && forall|i: int|
            0 <= i < file.identity.admin_pubkeys@.len() ==> keys::key_of(
                (#[trigger] file.identity.admin_pubkeys@[i])@,
            ) is Ok,
        r matches Ok(c) ==> {
            &&& c.server.allowed_admins@.len() == file.identity.admin_pubkeys@.len()
            &&& forall|i: int|
                0 <= i < c.server.allowed_admins@.len() ==> keys::key_of(
                    file.identity.admin_pubkeys@[i]@,
                ) == Ok::<Seq<u8>, error::ErrorView>((#[trigger] c.server.allowed_admins@[i])@)
            &&& forall|port: u16| #[trigger]
                c.server.egress@.contains(port) <==> file.egress.allow@.contains(port)
        },
{
    let server_pub = static_secret.public_key();
    proof {
        every_listed_admin_counts(file.identity.admin_pubkeys@);
    }
    let allowed_admins = match parse_admins(&file.identity.admin_pubkeys) {
        Ok(v) => v,
        Err(e) => {
            return Err(e);
        },
    };
    let egress = Egress::new(file.egress.allow.as_slice());
    let knock = if file.knock.enabled {
        Some(
            KnockRuntime {
                knock_port: match file.knock.knock_port {
                    Some(p) => p,
                    None => listen.port(),
                },
                tunnel_port: listen.port(),
                psk: psk.clone(),
                server_pub,
                window_secs: match file.knock.window_secs {
                    Some(w) => w,
                    None => 30,
                },
                table: file.firewall.table.clone(),
                set: file.firewall.set.clone(),
                ttl_secs: file.firewall.ttl_secs,
            },
        )
    } else {
        None
    };
    proof {
        assert(key_views(allowed_admins@).len() == allowed_admins@.len());
        assert forall|i: int| 0 <= i < allowed_admins@.len() implies keys::key_of(
            file.identity.admin_pubkeys@[i]@,
        ) == Ok::<Seq<u8>, error::ErrorView>((#[trigger] allowed_admins@[i])@) by {
            assert(key_views(allowed_admins@)[i] == allowed_admins@[i]@);
            assert(keys::key_of(file.identity.admin_pubkeys@[i]@) is Ok);
        }
    }
    Ok(
        LoadedConfig {
            listen,
            server: ServerConfig {
                static_secret,
                psk,
                allowed_admins,
                egress,
                handshake_timeout_ms: file.limits.handshake_timeout_ms,
            },
            knock,
        },
    )
}

fn copy_ports(ports: &Vec<u16>) -> (r: Vec<u16>)
    ensures
        r@ == ports@,
{
    let mut out: Vec<u16> = Vec::new();
    out.extend_from_slice(ports.as_slice());
    assert(out@ =~= ports@);
    out
}

/// Sums up a configuration file.
pub fn summarize(file: &FileConfig) -> (r: Summary)
    ensures
        r.listen@ == file.listen@,
        r.knock_enabled == file.knock.enabled,
        r.egress@ == file.egress.allow@,
        r.admin_count == file.identity.admin_pubkeys@.len(),
        r.key_is_passphrase == (file.key.source@ == "passphrase"@),
        common::opt_text(r.passphrase_env) == (if file.key.source@ == "passphrase"@ {
            common::opt_text(file.key.passphrase_env)
        } else {
            None
        }),
{
    let key_is_passphrase = text::same(file.key.source.as_str(), "passphrase");
    let passphrase_env = if key_is_passphrase {
        common::clone_opt(&file.key.passphrase_env)
    } else {
        None
    };
    Summary {
        listen: file.listen.clone(),
        knock_enabled: file.knock.enabled,
        egress: copy_ports(&file.egress.allow),
        admin_count: file.identity.admin_pubkeys.len(),
        key_is_passphrase,
        passphrase_env,
    }
}

/// What initializing gives: the secret key to keep, the file to write, and the public key to show.
pub struct InitOutcome {
    pub secret: String,
    pub file: FileConfig,
    pub server_pubkey: String,
}

/// A new configuration: a passphrase with the given salt, one admin, the given ports, knocks on,
/// and defaults for the rest.
pub open spec fn is_initial(
    file: FileConfig,
    salt: Seq<char>,
    admin_key: Seq<char>,
    allow: Seq<u16>,
    listen: Seq<char>,
    key_path: Seq<char>,
) -> bool {
    &&& file.listen@ == listen
    &&& file.key.source@ == "passphrase"@
    &&& file.key.env_var is None
    &&& file.key.file is None
    &&& file.key.value is None
    &&& common::opt_text(file.key.passphrase_env) == Some("HYPERION_PASSPHRASE"@)
    &&& common::opt_text(file.key.salt) == Some(salt)
    &&& file.identity.static_key_file@ == key_path
    &&& text::texts(file.identity.admin_pubkeys@) == seq![admin_key]
    &&& file.egress.allow@ == allow
    &&& file.limits.handshake_timeout_ms == 3000
    &&& file.knock.enabled
    &&& file.knock.knock_port is None
    &&& file.knock.window_secs is None
    &&& file.firewall.table@ == "hyperion"@
    &&& file.firewall.set@ == "knock_allow"@
    &&& file.firewall.ttl_secs == 60
}

/// A new configuration.
pub fn initial_config(salt: &str, admin_key: &str, allow: &[u16], listen: &str, key_path: &str) -> (r:
    FileConfig)
    ensures
        is_initial(r, salt@, admin_key@, allow@, listen@, key_path@),
{
    let mut admin_pubkeys: Vec<String> = Vec::new();
    admin_pubkeys.push(admin_key.to_owned());
    assert(text::texts(admin_pubkeys@) =~= seq![admin_key@]);
    let mut ports: Vec<u16> = Vec::new();
    ports.extend_from_slice(allow);
    assert(ports@ =~= allow@);
    FileConfig {
        listen: listen.to_owned(),
        key: KeySource {
            source: "passphrase".to_owned(),
            env_var: None,
            file: None,
            value: None,
            passphrase_env: Some("HYPERION_PASSPHRASE".to_owned()),
            salt: Some(salt.to_owned()),
        },
        identity: Identity { static_key_file: key_path.to_owned(), admin_pubkeys },
        egress: EgressSection { allow: ports },
        limits: Limits { handshake_timeout_ms: default_handshake_ms() },
        knock: KnockSection { enabled: true, knock_port: None, window_secs: None },
        firewall: FirewallSection {
            table: default_table(),
            set: default_set(),
            ttl_secs: default_ttl(),
        },
    }
}

/// Why a server cannot be initialized, if it cannot: there is a configuration that must not be
/// overwritten, or the listen address or the admin's key is not one.
pub open spec fn init_refusal(
    exists: bool,
    force: bool,
    cfg_path: Seq<char>,
    listen: Seq<char>,
    listen_refused: Option<Seq<char>>,
    admin_key: Seq<char>,
) -> Option<Seq<Seq<char>>> {
    if exists && !force {
        Some(
            seq!["config already exists at "@ + cfg_path + " (use --force to overwrite)"@],
        )
    } else if listen_refused is Some {
        Some(seq![listen_refused->0, "invalid listen address "@ + listen])
    } else {
        match keys::key_of(admin_key) {
            Err(e) => Some(seq![error::message(e), "invalid admin pubkey"@]),
            Ok(_) => None,
        }
    }
}

/// Where the files of a new configuration go, and what is there already.
pub struct InitPlace<'a> {
    pub cfg_path: &'a str,
    pub key_path: &'a str,
    pub exists: bool,
}

/// Makes a new server key and a configuration with it. `listen_refused` says why `listen` is no
/// address, if it is none.
pub fn init_config(
    salt: &str,
    admin_key: &str,
    allow: &[u16],
    listen: &str,
    listen_refused: Option<&str>,
    force: bool,
    place: &InitPlace<'_>,
) -> (r: Result<InitOutcome, Failure>)
    ensures
        match init_refusal(
            place.exists,
            force,
            place.cfg_path@,
            listen@,
            match listen_refused {
                Some(why) => Some(why@),
                None => None,
            },
            admin_key@,
        ) {
            Some(e) => r matches Err(f) && f@ == e,
            None => r matches Ok(o) && is_initial(
                o.file,
                salt@,
                admin_key@,
                allow@,
                listen@,
                place.key_path@,
            ) && (keys::key_of(o.secret@) matches Ok(secret) && o.server_pubkey@
                == encoding::base64(crypto::x25519_public(secret))),
        },
{
    if place.exists && !force {
        return Err(
            Failure::new(
                text::concat3(
                    "config already exists at ",
                    place.cfg_path,
                    " (use --force to overwrite)",
                ),
            ),
        );
    }
    if let Some(why) = listen_refused {
        return Err(Failure::because(why, text::concat2("invalid listen address ", listen)));
    }
    if let Err(e) = PublicKey::from_base64(admin_key) {
        return Err(Failure::caused_by(e, "invalid admin pubkey".to_owned()));
    }
    let keypair = Keypair::generate();
    let secret = keypair.secret.to_base64();
    let server_pubkey = keypair.public.to_base64();
    let file = initial_config(salt, admin_key, allow, listen, place.key_path);
    Ok(InitOutcome { secret, file, server_pubkey })
}

/// A new server lets in the admin that it was made for, and no other.
pub proof fn new_server_lets_its_admin_in(
    file: FileConfig,
    salt: Seq<char>,
    admin_key: Seq<char>,
    allow: Seq<u16>,
    listen: Seq<char>,
    key_path: Seq<char>,
)
    requires
        is_initial(file, salt, admin_key, allow, listen, key_path),
        keys::key_of(admin_key) is Ok,
    ensures
        allowed_admins(file.identity.admin_pubkeys@) == Ok::<Seq<Seq<u8>>, Seq<Seq<char>>>(
            seq![keys::key_of(admin_key)->Ok_0],
        ),
{
    let pubkeys = file.identity.admin_pubkeys@;
    assert(text::texts(pubkeys).len() == pubkeys.len());
    assert(text::texts(pubkeys)[0] == pubkeys[0]@);
    reveal_with_fuel(admins_of, 2);
    assert(admins_of(pubkeys, 1)->Ok_0 =~= seq![keys::key_of(admin_key)->Ok_0]);
}

/// Every listed admin is let in: where each text reads as a key and there is one at least, the keys
/// that a server lets in are those, one for each text, in order. Where a text does not read as a key,
/// or there is none, there are no such keys.
pub proof fn every_listed_admin_counts(pubkeys: Seq<String>)
    ensures
        pubkeys.len() > 0 && (forall|i: int|
            0 <= i < pubkeys.len() ==> keys::key_of((#[trigger] pubkeys[i])@) is Ok) ==> (
        allowed_admins(pubkeys) matches Ok(admins) && admins.len() == pubkeys.len() && forall|
            i: int,
        |
            0 <= i < pubkeys.len() ==> keys::key_of((#[trigger] pubkeys[i])@) == Ok::<
                Seq<u8>,
                error::ErrorView,
            >(admins[i])),
        pubkeys.len() == 0 ==> allowed_admins(pubkeys) is Err,
        (exists|i: int| 0 <= i < pubkeys.len() && keys::key_of((#[trigger] pubkeys[i])@) is Err)
            ==> allowed_admins(pubkeys) is Err,
{
    admins_one_by_one(pubkeys, pubkeys.len() as int);
}

proof fn admins_one_by_one(pubkeys: Seq<String>, n: int)
    requires
        0 <= n <= pubkeys.len(),
    ensures
        match admins_of(pubkeys, n) {
            Ok(admins) => admins.len() == n && forall|i: int|
                0 <= i < n ==> keys::key_of((#[trigger] pubkeys[i])@) == Ok::<
                    Seq<u8>,
                    error::ErrorView,
                >(admins[i]),
            Err(_) => exists|i: int| 0 <= i < n && keys::key_of((#[trigger] pubkeys[i])@) is Err,
        },
    decreases n,
{
    if n > 0 {
        admins_one_by_one(pubkeys, n - 1);
        if admins_of(pubkeys, n) is Err && admins_of(pubkeys, n - 1) is Ok {
            assert(keys::key_of(pubkeys[n - 1]@) is Err);
        }
    }
}

/// What is loaded is what the file says: the address, the keys and the time limit as given, the keys
/// of the admins one for one, and as permitted ports those of the list, wherever they stand in it,
/// and no others.
pub proof fn loaded_as_configured(
    file: FileConfig,
    listen: SocketAddr,
    psk: Seq<u8>,
    static_secret: Seq<u8>,
    admins: Seq<Seq<u8>>,
    c: LoadedConfig,
    port: u16,
)
    requires
        loads_as(file, listen, psk, static_secret, admins, c),
    ensures
        c.listen == listen,
        c.server.static_secret@ == static_secret,
        c.server.psk@ == psk,
        c.server.handshake_timeout_ms == file.limits.handshake_timeout_ms,
        c.server.allowed_admins@.len() == admins.len(),
        forall|i: int|
            0 <= i < admins.len() ==> (#[trigger] c.server.allowed_admins@[i])@ == admins[i],
        c.server.egress@.contains(port) <==> exists|i: int|
            0 <= i < file.egress.allow@.len() && #[trigger] file.egress.allow@[i] == port,
{
    assert(key_views(c.server.allowed_admins@).len() == c.server.allowed_admins@.len());
    assert forall|i: int| 0 <= i < admins.len() implies (
    #[trigger] c.server.allowed_admins@[i])@ == admins[i] by {
        assert(key_views(c.server.allowed_admins@)[i] == c.server.allowed_admins@[i]@);
    }
    assert(file.egress.allow@.to_set().contains(port) <==> file.egress.allow@.contains(port));
}

/// Knocks are listened for exactly if they are switched on: with the server's own keys, for the port
/// that it listens on, on the knock port that the file names or else on that same port, within the
/// window that it names or else 30 seconds, and for the set of the firewall that it names.
pub proof fn knocks_are_listened_for_as_configured(
    file: FileConfig,
    listen: SocketAddr,
    psk: Seq<u8>,
    static_secret: Seq<u8>,
    admins: Seq<Seq<u8>>,
    c: LoadedConfig,
)
    requires
        loads_as(file, listen, psk, static_secret, admins, c),
    ensures
        file.knock.enabled <==> c.knock is Some,
        c.knock matches Some(k) ==> {
            &&& k.tunnel_port == listen.port
            &&& file.knock.knock_port matches Some(p) ==> k.knock_port == p
            &&& file.knock.knock_port is None ==> k.knock_port == listen.port
            &&& file.knock.window_secs matches Some(w) ==> k.window_secs == w
            &&& file.knock.window_secs is None ==> k.window_secs == 30
            &&& k.psk@ == psk
            &&& k.server_pub@ == crypto::x25519_public(static_secret)
            &&& k.table@ == file.firewall.table@
            &&& k.set@ == file.firewall.set@
            &&& k.ttl_secs == file.firewall.ttl_secs
        },
{
}

/// A server that was initialized for an admin and some ports comes up as that: it lets this one admin
/// in, dials these ports and no others, listens for knocks on the port of its own address with a
/// window of 30 seconds, and opens the firewall for a minute.
pub proof fn new_server_comes_up(
    file: FileConfig,
    salt: Seq<char>,
    admin_key: Seq<char>,
    admin: Seq<u8>,
    allow: Seq<u16>,
    listen_text: Seq<char>,
    key_path: Seq<char>,
    listen: SocketAddr,
    psk: Seq<u8>,
    static_secret: Seq<u8>,
    c: LoadedConfig,
    port: u16,
)
    requires
        is_initial(file, salt, admin_key, allow, listen_text, key_path),
        keys::key_of(admin_key) == Ok::<Seq<u8>, error::ErrorView>(admin),
        allowed_admins(file.identity.admin_pubkeys@) matches Ok(admins) && loads_as(
            file,
            listen,
            psk,
            static_secret,
            admins,
            c,
        ),
    ensures
        c.server.allowed_admins@.len() == 1,
        c.server.allowed_admins@[0]@ == admin,
        c.server.egress@.contains(port) <==> exists|i: int|
            0 <= i < allow.len() && #[trigger] allow[i] == port,
        c.server.handshake_timeout_ms == 3000,
        c.knock matches Some(k) && {
            &&& k.knock_port == listen.port && k.tunnel_port == listen.port
            &&& k.window_secs == 30 && k.ttl_secs == 60
            &&& k.table@ == "hyperion"@ && k.set@ == "knock_allow"@
        },
{
    new_server_lets_its_admin_in(file, salt, admin_key, allow, listen_text, key_path);
    let admins = allowed_admins(file.identity.admin_pubkeys@)->Ok_0;
    loaded_as_configured(file, listen, psk, static_secret, admins, c, port);
    knocks_are_listened_for_as_configured(file, listen, psk, static_secret, admins, c);
}

/// A new configuration asks for the passphrase in `HYPERION_PASSPHRASE` and stretches it with the
/// salt that it was made with.
pub proof fn new_server_uses_its_salt(
    file: FileConfig,
    salt: Seq<char>,
    admin_key: Seq<char>,
    allow: Seq<u16>,
    listen: Seq<char>,
    key_path: Seq<char>,
    r: Result<KeyPlan, Failure>,
)
    requires
        is_initial(file, salt, admin_key, allow, listen, key_path),
        key_plan(file.key, r),
    ensures
        r matches Ok(KeyPlan::Passphrase { salt: s, env }) && s@ == salt && common::opt_text(env)
            == Some("HYPERION_PASSPHRASE"@),
        file.listen@ == listen,
        file.identity.static_key_file@ == key_path,
{
}

proof fn sources_differ()
    ensures
        "passphrase"@ != "env"@ && "passphrase"@ != "file"@ && "passphrase"@ != "value"@,
        "env"@ != "file"@ && "env"@ != "value"@ && "file"@ != "value"@,
{
    reveal_strlit("passphrase");
    reveal_strlit("env");
    reveal_strlit("file");
    reveal_strlit("value");
    assert("passphrase"@.len() == 10 && "env"@.len() == 3);
    assert("file"@.len() == 4 && "value"@.len() == 5);
}

/// The pre-shared key is the one that the configuration points at: the key that its value, the named
/// variable or the named file holds in Base64, or the one that the passphrase gives with the salt. A
/// variable that is not set is a failure.
pub proof fn the_named_key_is_used(
    k: KeySource,
    r: Result<KeyPlan, Failure>,
    key: Seq<u8>,
    passphrase: Seq<char>,
    why: Seq<char>,
)
    requires
        key_plan(k, r),
        key.len() == 32,
    ensures
        k.source@ == "value"@ && (k.value matches Some(v) && v@ == encoding::base64(key)) ==> (
        r matches Ok(plan) && plan is Value && planned_psk(plan, Err(why)) == Ok::<
            Seq<u8>,
            Seq<Seq<char>>,
        >(key)),
        k.source@ == "env"@ ==> (k.env_var matches Some(v) ==> (r matches Ok(plan) && (
        plan matches KeyPlan::Env { var } && var@ == v@) && planned_psk(
            plan,
            Ok(encoding::base64(key)),
        ) == Ok::<Seq<u8>, Seq<Seq<char>>>(key) && planned_psk(plan, Err(why)) is Err)),
        k.source@ == "file"@ ==> (k.file matches Some(f) ==> (r matches Ok(plan) && (
        plan matches KeyPlan::File { path } && path@ == f@) && planned_psk(
            plan,
            Ok(encoding::base64(key).push('\n')),
        ) == Ok::<Seq<u8>, Seq<Seq<char>>>(key))),
        k.source@ == "passphrase"@ ==> (k.salt matches Some(s) ==> (r matches Ok(plan) && (
        plan matches KeyPlan::Passphrase { salt, env } && salt@ == s@ && common::opt_text(env)
            == common::opt_text(k.passphrase_env)) && {
            let p = vstd::utf8::encode_utf8(passphrase);
            let t = vstd::utf8::encode_utf8(s@);
            8 <= t.len() <= 0xffff_ffff && p.len() <= 0xffff_ffff ==> planned_psk(
                plan,
                Ok(passphrase),
            ) == Ok::<Seq<u8>, Seq<Seq<char>>>(crypto::argon2id(p, t))
        })),
{
    sources_differ();
    secret::psk_texts_are_read(key);
}

/// A configuration names a key exactly if its source is one of the four and what belongs to that
/// source is there.
pub proof fn a_key_is_named_or_missing(k: KeySource, r: Result<KeyPlan, Failure>)
    requires
        key_plan(k, r),
    ensures
        r is Ok <==> k.source@ == "passphrase"@ && k.salt is Some || k.source@ == "env"@
            && k.env_var is Some || k.source@ == "file"@ && k.file is Some || k.source@
            == "value"@ && k.value is Some,
{
    sources_differ();
}

/// A server can be initialized exactly if no configuration is in the way, or it is to be overwritten,
/// and the listen address and the admin's key are what they should be.
pub proof fn initialized_unless_refused(
    present: bool,
    force: bool,
    cfg_path: Seq<char>,
    listen: Seq<char>,
    listen_refused: Option<Seq<char>>,
    admin_key: Seq<char>,
)
    ensures
        init_refusal(present, force, cfg_path, listen, listen_refused, admin_key) is None <==> (
        !present || force) && listen_refused is None && keys::key_of(admin_key) is Ok,
{
}

/// Both ends derive the same key from the same passphrase and salt.
pub proof fn both_ends_derive_the_same_key(
    client: crate::client::config::KeyPlan,
    server: KeyPlan,
    passphrase: Seq<char>,
)
    requires
        client matches crate::client::config::KeyPlan::Passphrase { salt: a, env: _ } && (
        server matches KeyPlan::Passphrase { salt: b, env: _ } && a@ == b@),
    ensures
        crate::client::config::planned_psk(client, Ok(passphrase)) == planned_psk(
            server,
            Ok(passphrase),
        ),
{
}

} // verus!
