//! What both programs share: where files live, and how a background process is found and stopped.
use crate::text;
use vstd::prelude::*;

verus! {

broadcast use vstd::seq_lib::group_seq_properties;

/// A path: a base, and components to be joined onto it in order.
pub struct PathParts {
    pub base: String,
    pub parts: Vec<String>,
}

/// A path as texts.
#[verifier::ext_equal]
pub struct PathView {
    pub base: Seq<char>,
    pub parts: Seq<Seq<char>>,
}

impl View for PathParts {
    type V = PathView;

    open spec fn view(&self) -> PathView {
        PathView { base: self.base@, parts: text::texts(self.parts@) }
    }
}

/// A path that is a base and nothing else.
pub open spec fn plain_path(base: Seq<char>) -> PathView {
    PathView { base, parts: Seq::empty() }
}

/// A path with one more component.
pub open spec fn child(p: PathView, part: Seq<char>) -> PathView {
    PathView { base: p.base, parts: p.parts.push(part) }
}

impl PathParts {
    /// A path that is a base and nothing else.
    pub fn from_base(base: &str) -> (r: Self)
        ensures
            r@ == plain_path(base@),
    {
        let r = PathParts { base: base.to_owned(), parts: Vec::new() };
        assert(r@.parts =~= Seq::<Seq<char>>::empty());
        r
    }

    /// This path with one more component.
    pub fn join(self, part: &str) -> (r: Self)
        ensures
            r@ == child(self@, part@),
    {
        let mut r = self;
        let ghost before = text::texts(r.parts@);
        r.parts.push(part.to_owned());
        assert(text::texts(r.parts@) =~= before.push(part@));
        r
    }
}

/// The parts of a process's environment that say where files live.
pub struct Environment {
    pub windows: bool,
    /// `HYPERION_HOME`
    pub hyperion_home: Option<String>,
    /// `APPDATA`
    pub appdata: Option<String>,
    /// `USERPROFILE`
    pub userprofile: Option<String>,
    /// `XDG_CONFIG_HOME`
    pub xdg_config_home: Option<String>,
    /// `HOME`
    pub home: Option<String>,
}

/// A text that may be missing.
pub open spec fn opt_text(s: Option<String>) -> Option<Seq<char>> {
    match s {
        Some(t) => Some(t@),
        None => None,
    }
}

/// A text is missing exactly if there is none.
pub proof fn texts_that_may_be_missing(s: Option<String>)
    ensures
        s matches Some(t) ==> opt_text(s) == Some(t@),
        s is None ==> opt_text(s) is None,
{
}

/// Where configuration lives: `HYPERION_HOME` if it is set, else the user's configuration
/// directory, else a relative path.
pub open spec fn config_dir_of(e: Environment) -> PathView {
    if let Some(dir) = opt_text(e.hyperion_home) {
        plain_path(dir)
    } else if e.windows {
        if let Some(appdata) = opt_text(e.appdata) {
            child(plain_path(appdata), "hyperion"@)
        } else if let Some(profile) = opt_text(e.userprofile) {
            child(child(child(plain_path(profile), "AppData"@), "Roaming"@), "hyperion"@)
        } else {
            plain_path("hyperion"@)
        }
    } else {
        if let Some(xdg) = opt_text(e.xdg_config_home) {
            child(plain_path(xdg), "hyperion"@)
        } else if let Some(home) = opt_text(e.home) {
            child(child(plain_path(home), ".config"@), "hyperion"@)
        } else {
            plain_path("hyperion"@)
        }
    }
}

/// Where configuration lives.
pub fn config_dir(e: &Environment) -> (r: PathParts)
    ensures
        r@ == config_dir_of(*e),
{
    if let Some(dir) = &e.hyperion_home {
        return PathParts::from_base(dir.as_str());
    }
    if e.windows {
        if let Some(appdata) = &e.appdata {
            return PathParts::from_base(appdata.as_str()).join("hyperion");
        }
        if let Some(profile) = &e.userprofile {
            return PathParts::from_base(profile.as_str()).join("AppData").join("Roaming").join(
                "hyperion",
            );
        }
    } else {
        if let Some(xdg) = &e.xdg_config_home {
            return PathParts::from_base(xdg.as_str()).join("hyperion");
        }
        if let Some(home) = &e.home {
            return PathParts::from_base(home.as_str()).join(".config").join("hyperion");
        }
    }
    PathParts::from_base("hyperion")
}

/// Configuration lives where `HYPERION_HOME` says, whatever else is set. Without it, it lives in a
/// directory `hyperion`: on Windows below `APPDATA`, else below the profile's `AppData` and `Roaming`;
/// elsewhere below `XDG_CONFIG_HOME`, else below `.config` of the home directory; and without any of
/// these, in the current directory.
pub proof fn where_configuration_lives(e: Environment)
    ensures
        ({
            let p = config_dir_of(e);
            let none = Seq::<Seq<char>>::empty();
            &&& e.hyperion_home matches Some(d) ==> p.base == d@ && p.parts == none
            &&& e.hyperion_home is None && e.windows ==> {
                &&& e.appdata matches Some(d) ==> p.base == d@ && p.parts == seq!["hyperion"@]
                &&& e.appdata is None ==> (e.userprofile matches Some(d) ==> p.base == d@ && p.parts
                    == seq!["AppData"@, "Roaming"@, "hyperion"@])
                &&& e.appdata is None && e.userprofile is None ==> p.base == "hyperion"@ && p.parts
                    == none
            }
            &&& e.hyperion_home is None && !e.windows ==> {
                &&& e.xdg_config_home matches Some(d) ==> p.base == d@ && p.parts == seq![
                    "hyperion"@,
                ]
                &&& e.xdg_config_home is None ==> (e.home matches Some(d) ==> p.base == d@
                    && p.parts == seq![".config"@, "hyperion"@])
                &&& e.xdg_config_home is None && e.home is None ==> p.base == "hyperion"@ && p.parts
                    == none
            }
        }),
{
    let p = config_dir_of(e);
    assert(p.parts =~= Seq::<Seq<char>>::empty() || p.parts =~= seq!["hyperion"@] || p.parts
        =~= seq!["AppData"@, "Roaming"@, "hyperion"@] || p.parts =~= seq![
        ".config"@,
        "hyperion"@,
    ]);
}

/// A component that is joined onto a path comes behind those that it has.
pub proof fn components_are_joined_in_order(base: Seq<char>, a: Seq<char>, b: Seq<char>)
    ensures
        plain_path(base).base == base && plain_path(base).parts.len() == 0,
        child(child(plain_path(base), a), b).base == base,
        child(child(plain_path(base), a), b).parts == seq![a, b],
{
    assert(child(child(plain_path(base), a), b).parts =~= seq![a, b]);
}

/// The user's home directory.
pub open spec fn home_dir_of(e: Environment) -> Option<Seq<char>> {
    if e.windows {
        opt_text(e.userprofile)
    } else {
        opt_text(e.home)
    }
}

/// The user's home directory.
pub fn home_dir(e: &Environment) -> (r: Option<&str>)
    ensures
        match r {
            Some(h) => home_dir_of(*e) == Some(h@),
            None => home_dir_of(*e) is None,
        },
{
    let dir = if e.windows {
        &e.userprofile
    } else {
        &e.home
    };
    match dir {
        Some(h) => Some(h.as_str()),
        None => None,
    }
}

/// What follows a leading `~/` or `~\`.
pub open spec fn below_home(path: Seq<char>) -> Option<Seq<char>> {
    match text::without_prefix(path, "~/"@) {
        Some(rest) => Some(rest),
        None => text::without_prefix(path, "~\\"@),
    }
}

/// A path with a leading `~` replaced by the home directory, where there is one.
pub open spec fn expanded(path: Seq<char>, home: Option<Seq<char>>) -> PathView {
    match (below_home(path), home) {
        (Some(rest), Some(h)) => child(plain_path(h), rest),
        _ => plain_path(path),
    }
}

/// The home directory is the user's profile on Windows, and `HOME` elsewhere.
pub proof fn where_home_is(e: Environment)
    ensures
        e.windows ==> home_dir_of(e) == opt_text(e.userprofile),
        !e.windows ==> home_dir_of(e) == opt_text(e.home),
{
}

/// What stands behind `~/` or `~\` is taken below the home directory, where there is one; without
/// one, and for every path that begins otherwise, the path stays as it is.
pub proof fn home_stands_for_the_tilde(rest: Seq<char>, path: Seq<char>, h: Seq<char>)
    ensures
        expanded("~/"@ + rest, Some(h)).base == h && expanded("~/"@ + rest, Some(h)).parts
            == seq![rest],
        expanded("~\\"@ + rest, Some(h)).base == h && expanded("~\\"@ + rest, Some(h)).parts
            == seq![rest],
        expanded(path, None).base == path && expanded(path, None).parts.len() == 0,
        !"~/"@.is_prefix_of(path) && !"~\\"@.is_prefix_of(path) ==> expanded(path, Some(h)).base
            == path && expanded(path, Some(h)).parts.len() == 0,
{
    reveal_strlit("~/");
    reveal_strlit("~\\");
    text::prefix_and_rest("~/"@ + rest, "~/"@, rest);
    text::prefix_and_rest("~\\"@ + rest, "~\\"@, rest);
    text::prefix_and_rest("~\\"@ + rest, "~/"@, rest);
    text::prefix_and_rest(path, "~/"@, rest);
    text::prefix_and_rest(path, "~\\"@, rest);
    assert(("~\\"@ + rest)[1] == '\\');
    if "~/"@.is_prefix_of("~\\"@ + rest) {
        assert(("~\\"@ + rest).take(2)[1] == '/');
    }
    assert(Seq::<Seq<char>>::empty().push(rest) =~= seq![rest]);
}

/// A path with a leading `~` replaced by the home directory, where there is one.
pub fn expand_home(path: &str, home: Option<&str>) -> (r: PathParts)
    ensures
        r@ == expanded(
            path@,
            match home {
                Some(h) => Some(h@),
                None => None,
            },
        ),
{
    let rest = match text::strip_prefix(path, "~/") {
        Some(rest) => Some(rest),
        None => text::strip_prefix(path, "~\\"),
    };
    if let Some(rest) = rest {
        if let Some(h) = home {
            return PathParts::from_base(h).join(rest);
        }
    }
    PathParts::from_base(path)
}

/// The port of a listen address: what follows its last colon, if that is a port, else the default
/// one.
pub open spec fn port_text(listen: Seq<char>) -> Seq<char> {
    let last = text::split_on(listen, ':').last();
    if text::u16_of(last) is Some {
        last
    } else {
        "8443"@
    }
}

/// The port of an address is what follows its last colon, if that is a port; else it is 8443.
pub proof fn the_port_follows_the_last_colon(host: Seq<char>, last: Seq<char>)
    requires
        !last.contains(':'),
    ensures
        text::number_of(last, 0xffff) is Some ==> port_text(host + seq![':'] + last) == last
            && port_text(last) == last,
        text::number_of(last, 0xffff) is None ==> port_text(host + seq![':'] + last) == "8443"@
            && port_text(last) == "8443"@,
{
    text::split_at_the_last(host, last, ':');
}

/// The port of a listen address.
pub fn port_of(listen: &str) -> (r: String)
    ensures
        r@ == port_text(listen@),
{
    let mut parts = text::split(listen, ':');
    proof {
        text::split_pieces(listen@, ':');
    }
    let ghost all = text::texts(parts@);
    match parts.pop() {
        Some(last) => {
            assert(last@ == all.last());
            if text::parse_u16(last.as_str()).is_some() {
                last
            } else {
                "8443".to_owned()
            }
        },
        None => "8443".to_owned(),
    }
}

/// The process number in a pid file.
pub open spec fn pid_in(contents: Option<Seq<char>>) -> Option<nat> {
    match contents {
        Some(t) => text::number_of(text::trimmed(t), 0xffff_ffff),
        None => None,
    }
}

/// The process number in a pid file, if there is a file and it holds one.
pub fn read_pid(contents: Option<&str>) -> (r: Option<u32>)
    ensures
        pid_in(
            match contents {
                Some(t) => Some(t@),
                None => None,
            },
        ) == (match r {
            Some(v) => Some(v as nat),
            None => None::<nat>,
        }),
{
    match contents {
        Some(t) => text::parse_u32(text::trim(t)),
        None => None,
    }
}

/// What goes into a pid file.
pub fn pid_text(pid: u32) -> (r: String)
    ensures
        r@ == text::decimal(pid as nat),
        pid_in(Some(r@)) == Some(pid as nat),
{
    proof {
        pid_round_trip(pid);
    }
    text::decimal_text(pid as u64)
}

/// A pid file reads back as the number that was written.
pub proof fn pid_round_trip(pid: u32)
    ensures
        pid_in(Some(text::decimal(pid as nat))) == Some(pid as nat),
{
    let t = text::decimal(pid as nat);
    text::decimal_is_canonical(pid as nat);
    assert(text::is_digit(t[0]));
    assert(text::is_digit(t[t.len() - 1]));
    text::trimmed_is_identity(t);
}

/// A pid file reads as the number that it holds in base 10, whatever spaces, tabs and line ends stand
/// around it; one that is not there holds none.
pub proof fn pid_files_are_read(front: Seq<char>, pid: nat, back: Seq<char>)
    requires
        forall|i: int|
            0 <= i < front.len() ==> (#[trigger] front[i] == ' ' || front[i] == '\t' || front[i]
                == '\n' || front[i] == '\r'),
        forall|i: int|
            0 <= i < back.len() ==> (#[trigger] back[i] == ' ' || back[i] == '\t' || back[i]
                == '\n' || back[i] == '\r'),
    ensures
        pid_in(Some(front + text::decimal(pid) + back)) == (if pid <= 0xffff_ffff {
            Some(pid)
        } else {
            None
        }),
        pid_in(None) is None,
{
    let t = text::decimal(pid);
    text::decimal_is_canonical(pid);
    assert(text::is_digit(t[0]));
    assert(text::is_digit(t[t.len() - 1]));
    text::trimming_takes_the_ends(front, t, back);
    text::numbers_are_read(Seq::empty(), pid, 0xffff_ffff);
    assert(Seq::<char>::empty() + t =~= t);
}

/// What the system says of a process number.
pub enum Probe {
    /// Linux: whether `/proc` has an entry for it.
    ProcEntry(bool),
    /// Windows: what `tasklist` printed for it, if it ran.
    TaskList(Option<String>),
    /// Elsewhere: whether `kill -0` succeeded, if it ran.
    KillStatus(Option<bool>),
}

/// Whether a process is alive, going by a probe: a probe that could not run counts as alive.
pub open spec fn alive(pid: u32, probe: Probe) -> bool {
    match probe {
        Probe::ProcEntry(exists) => exists,
        Probe::TaskList(Some(out)) => text::contains_text(out@, text::decimal(pid as nat)),
        Probe::TaskList(None) => true,
        Probe::KillStatus(Some(ok)) => ok,
        Probe::KillStatus(None) => true,
    }
}

/// A process is alive as its probe says; where the probe could not run, it is taken to be alive.
pub proof fn probes_are_believed(pid: u32, before: Seq<char>, after: Seq<char>, probe: Probe)
    ensures
        probe matches Probe::ProcEntry(there) ==> alive(pid, probe) == there,
        probe matches Probe::KillStatus(Some(ok)) ==> alive(pid, probe) == ok,
        probe matches Probe::KillStatus(None) ==> alive(pid, probe),
        probe matches Probe::TaskList(None) ==> alive(pid, probe),
        probe matches Probe::TaskList(Some(out)) ==> (out@ == before + text::decimal(pid as nat)
            + after ==> alive(pid, probe)),
        probe matches Probe::TaskList(Some(out)) ==> (alive(pid, probe) ==> exists|
            a: Seq<char>,
            b: Seq<char>,
        |
            out@ == #[trigger] (a + text::decimal(pid as nat) + b)),
{
    text::held_in_the_middle(before, text::decimal(pid as nat), after);
    if let Probe::TaskList(Some(out)) = probe {
        text::held_between(out@, text::decimal(pid as nat));
    }
}

/// Whether a process is alive, going by a probe.
pub fn is_alive(pid: u32, probe: &Probe) -> (r: bool)
    ensures
        r == alive(pid, *probe),
{
    match probe {
        Probe::ProcEntry(exists) => *exists,
        Probe::TaskList(Some(out)) => {
            let t = text::decimal_text(pid as u64);
            text::contains(out.as_str(), t.as_str())
        },
        Probe::TaskList(None) => true,
        Probe::KillStatus(Some(ok)) => *ok,
        Probe::KillStatus(None) => true,
    }
}

/// Whether a process has a name with `needle` in it, going by what the system printed; a name that
/// could not be had counts as a match. On Windows the case of ASCII letters makes no difference.
pub open spec fn name_matches(
    windows: bool,
    printed: Option<Seq<char>>,
    needle: Seq<char>,
) -> bool {
    match printed {
        Some(name) => if windows {
            text::contains_text(text::lowered(name), text::lowered(needle))
        } else {
            text::contains_text(name, needle)
        },
        None => true,
    }
}

/// A name matches exactly if it holds what is looked for; on Windows capital and small letters of
/// ASCII are the same. A name that could not be had matches.
pub proof fn names_are_matched(windows: bool, name: Seq<char>, needle: Seq<char>)
    ensures
        name_matches(windows, None, needle),
        !windows ==> (name_matches(windows, Some(name), needle) <==> exists|
            a: Seq<char>,
            b: Seq<char>,
        |
            name == #[trigger] (a + needle + b)),
        windows ==> (name_matches(windows, Some(name), needle) <==> exists|
            a: Seq<char>,
            b: Seq<char>,
        |
            text::lowered(name) == #[trigger] (a + text::lowered(needle) + b)),
{
    text::held_between(name, needle);
    text::held_between(text::lowered(name), text::lowered(needle));
}

/// Whether a process has a name with `needle` in it.
pub fn process_name_matches(windows: bool, printed: Option<&str>, needle: &str) -> (r: bool)
    ensures
        r == name_matches(
            windows,
            match printed {
                Some(t) => Some(t@),
                None => None,
            },
            needle@,
        ),
{
    match printed {
        Some(name) => {
            if windows {
                let a = text::to_lower(name);
                let b = text::to_lower(needle);
                text::contains(a.as_str(), b.as_str())
            } else {
                text::contains(name, needle)
            }
        },
        None => true,
    }
}

/// The process that runs, if the pid file names one that is alive and has the right name.
pub fn running_pid(pid: Option<u32>, alive: bool, name_matches: bool) -> (r: Option<u32>)
    ensures
        r == (if alive && name_matches {
            pid
        } else {
            None
        }),
{
    match pid {
        Some(p) => if alive && name_matches {
            Some(p)
        } else {
            None
        },
        None => None,
    }
}

/// How to stop a background process.
#[derive(Clone, Copy, Debug, PartialEq, Eq, Structural)]
pub enum StopPlan {
    /// There is none.
    NotRunning,
    /// Kill this one, and remove the pid file.
    Kill(u32),
    /// Remove the pid file, which names a process that is gone.
    Stale(u32),
}

/// How to stop a background process.
pub fn stop_plan(pid: Option<u32>, alive: bool, name_matches: bool) -> (r: StopPlan)
    ensures
        r == (match pid {
            None => StopPlan::NotRunning,
            Some(p) => if alive && name_matches {
                StopPlan::Kill(p)
            } else {
                StopPlan::Stale(p)
            },
        }),
{
    match pid {
        None => StopPlan::NotRunning,
        Some(p) => if alive && name_matches {
            StopPlan::Kill(p)
        } else {
            StopPlan::Stale(p)
        },
    }
}

/// What is said once a plan has been carried out.
pub open spec fn stop_message(plan: StopPlan, label: Seq<char>) -> Seq<char> {
    match plan {
        StopPlan::NotRunning => label + " is not running (no pid file)"@,
        StopPlan::Kill(p) => label + " down (stopped pid "@ + text::decimal(p as nat) + ")"@,
        StopPlan::Stale(p) => label + " was not running (cleaned up stale pid "@ + text::decimal(
            p as nat,
        ) + ")"@,
    }
}

/// What is said of stopping begins with what was to be stopped, and names the process that was
/// stopped or was gone.
pub proof fn what_is_said_of_stopping(plan: StopPlan, label: Seq<char>)
    ensures
        label.is_prefix_of(stop_message(plan, label)),
        plan matches StopPlan::Kill(p) ==> text::contains_text(
            stop_message(plan, label),
            "stopped pid "@ + text::decimal(p as nat),
        ),
        plan matches StopPlan::Stale(p) ==> text::contains_text(
            stop_message(plan, label),
            "cleaned up stale pid "@ + text::decimal(p as nat),
        ),
{
    let m = stop_message(plan, label);
    assert(m.take(label.len() as int) =~= label);
    match plan {
        StopPlan::NotRunning => {},
        StopPlan::Kill(p) => {
            let d = text::decimal(p as nat);
            reveal_strlit(" down (stopped pid ");
            reveal_strlit(" down (");
            reveal_strlit("stopped pid ");
            assert(" down (stopped pid "@ =~= " down ("@ + "stopped pid "@);
            text::held_in_the_middle(label + " down ("@, "stopped pid "@ + d, ")"@);
            assert(m =~= (label + " down ("@) + ("stopped pid "@ + d) + ")"@);
        },
        StopPlan::Stale(p) => {
            let d = text::decimal(p as nat);
            reveal_strlit(" was not running (cleaned up stale pid ");
            reveal_strlit(" was not running (");
            reveal_strlit("cleaned up stale pid ");
            assert(" was not running (cleaned up stale pid "@ =~= " was not running ("@
                + "cleaned up stale pid "@);
            text::held_in_the_middle(
                label + " was not running ("@,
                "cleaned up stale pid "@ + d,
                ")"@,
            );
            assert(m =~= (label + " was not running ("@) + ("cleaned up stale pid "@ + d) + ")"@);
        },
    }
}

impl StopPlan {
    /// What is said once this plan has been carried out.
    pub fn message(&self, label: &str) -> (r: String)
        ensures
            r@ == stop_message(*self, label@),
    {
        let mut out: String = label.to_owned();
        match self {
            StopPlan::NotRunning => {
                out.append(" is not running (no pid file)");
            },
            StopPlan::Kill(p) => {
                out.append(" down (stopped pid ");
                text::push_decimal(&mut out, *p as u64);
                out.append(")");
            },
            StopPlan::Stale(p) => {
                out.append(" was not running (cleaned up stale pid ");
                text::push_decimal(&mut out, *p as u64);
                out.append(")");
            },
        }
        out
    }
}

/// Which passphrase to use.
pub enum PassphraseSource {
    /// This one, from the environment.
    Given(String),
    /// Ask for it.
    Prompt,
}

/// Where the passphrase comes from: the named variable if there is one and it is set, else a
/// prompt.
pub fn read_passphrase(named: bool, value: Option<String>) -> (r: PassphraseSource)
    ensures
        match r {
            PassphraseSource::Given(p) => named && (value matches Some(v) && v@ == p@),
            PassphraseSource::Prompt => !named || value is None,
        },
{
    if named {
        if let Some(v) = value {
            return PassphraseSource::Given(v);
        }
    }
    PassphraseSource::Prompt
}

/// What is said when a background process is gone at once.
pub fn early_exit_message(log_path: &str) -> (r: String)
    ensures
        r@ == "daemon exited immediately — check the log:\n  "@ + log_path@,
{
    "daemon exited immediately — check the log:\n  ".to_owned().concat(log_path)
}

/// A secret as it is written to a file: on a line of its own.
pub fn secret_file_text(contents: &str) -> (r: String)
    ensures
        r@ == contents@.push('\n'),
{
    let mut out: String = contents.to_owned();
    out.push('\n');
    out
}

/// A copy of a text that may be missing.
pub fn clone_opt(s: &Option<String>) -> (r: Option<String>)
    ensures
        opt_text(r) == opt_text(*s),
{
    match s {
        Some(t) => Some(t.clone()),
        None => None,
    }
}

/// How a background process is started: the variable that the passphrase is handed over in, and
/// whether one is needed.
pub struct UpPlan {
    pub pass_var: String,
    pub key_is_passphrase: bool,
}

/// The variable that the passphrase is handed over in.
pub open spec fn pass_var_of(named: Option<Seq<char>>) -> Seq<char> {
    match named {
        Some(v) => v,
        None => "HYPERION_PASSPHRASE"@,
    }
}

/// The passphrase is handed over in the variable that is named, or else in `HYPERION_PASSPHRASE`.
pub proof fn where_the_passphrase_is(named: Option<Seq<char>>)
    ensures
        named matches Some(v) ==> pass_var_of(named) == v,
        named is None ==> pass_var_of(named) == "HYPERION_PASSPHRASE"@,
{
}

impl UpPlan {
    pub fn new(named: &Option<String>, key_is_passphrase: bool) -> (r: Self)
        ensures
            r.pass_var@ == pass_var_of(opt_text(*named)),
            r.key_is_passphrase == key_is_passphrase,
    {
        let pass_var = match named {
            Some(v) => v.clone(),
            None => "HYPERION_PASSPHRASE".to_owned(),
        };
        UpPlan { pass_var, key_is_passphrase }
    }

    /// Whether to ask for the passphrase: one is needed, and its variable is not set.
    pub fn prompts(&self, var_is_set: bool) -> (r: bool)
        ensures
            r == (self.key_is_passphrase && !var_is_set),
    {
        self.key_is_passphrase && !var_is_set
    }
}

} // verus!
