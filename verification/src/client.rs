//! The `wezel` command on a developer's machine: platform description,
//! configuration layering, the pheromone updater and the background daemon.
use vstd::prelude::*;

use crate::text::{
    append_chars, append_str, chars_of, eq_str, find_char, index_of, lines, slice_of,
    split_lines, starts_with, starts_with_str, string_of, strip_prefix, strip_prefix_str, trim,
    trim_end_matches, trim_end_matches_str, trim_start_matches, trim_start_matches_str, trimmed,
};

verus! {

// ── Platform description ─────────────────────────────────────────────────────

/// The display name of an OS as `std::env::consts::OS` names it.
pub open spec fn os_display(os: Seq<char>) -> Seq<char> {
    if os == "macos"@ {
        "macOS"@
    } else if os == "linux"@ {
        "Linux"@
    } else if os == "windows"@ {
        "Windows"@
    } else {
        os
    }
}

/// `<OS> <version>, <chip>`, or `<OS>, <chip>` without a version; the
/// architecture stands for the chip when it is unknown.
pub open spec fn spec_platform_label(os: Seq<char>, version: Seq<char>, chip: Seq<char>) -> Seq<char> {
    if version.len() == 0 {
        os_display(os) + ", "@ + chip
    } else {
        os_display(os) + " "@ + version + ", "@ + chip
    }
}

/// The platform a build ran on, as events report it.
pub fn platform_label(os: &str, os_version: Option<String>, chip: Option<String>, arch: &str) -> (r: String)
    ensures
        r@ == spec_platform_label(
            os@,
            match os_version {
                Some(v) => v@,
                None => Seq::empty(),
            },
            match chip {
                Some(c) => c@,
                None => arch@,
            },
        ),
{
    let o = chars_of(os);
    let mut m: Vec<char> = Vec::new();
    if eq_str(&o, "macos") {
        append_str(&mut m, "macOS");
    } else if eq_str(&o, "linux") {
        append_str(&mut m, "Linux");
    } else if eq_str(&o, "windows") {
        append_str(&mut m, "Windows");
    } else {
        append_chars(&mut m, &o);
    }
    let version = match os_version {
        Some(v) => v,
        None => String::new(),
    };
    let chip = match chip {
        Some(c) => c,
        None => arch.to_string(),
    };
    let vv = chars_of(version.as_str());
    if vv.len() > 0 {
        append_str(&mut m, " ");
        append_chars(&mut m, &vv);
    }
    append_str(&mut m, ", ");
    append_str(&mut m, chip.as_str());
    string_of(&m)
}

/// The coarse platform a pheromone records for its scenario: the OS family
/// for the four it knows, nothing for others.
pub open spec fn spec_coarse_platform(os: Seq<char>) -> Option<Seq<char>> {
    if os == "macos"@ {
        Some("macOS"@)
    } else if os == "linux"@ {
        Some("Linux"@)
    } else if os == "windows"@ {
        Some("Windows"@)
    } else if os == "freebsd"@ {
        Some("FreeBSD"@)
    } else {
        None
    }
}

pub fn coarse_platform(os: &str) -> (r: Option<&'static str>)
    ensures
        match r {
            Some(p) => spec_coarse_platform(os@) == Some(p@),
            None => spec_coarse_platform(os@) is None,
        },
{
    let o = chars_of(os);
    if eq_str(&o, "macos") {
        Some("macOS")
    } else if eq_str(&o, "linux") {
        Some("Linux")
    } else if eq_str(&o, "windows") {
        Some("Windows")
    } else if eq_str(&o, "freebsd") {
        Some("FreeBSD")
    } else {
        None
    }
}

/// `str::trim_matches('"')`.
pub open spec fn trim_quotes(s: Seq<char>) -> Seq<char> {
    trim_end_matches(trim_start_matches(s, "\""@), "\""@)
}

/// The value of the first `PRETTY_NAME=` line, without surrounding quotes.
pub open spec fn pretty_name_in(ls: Seq<Seq<char>>) -> Option<Seq<char>>
    decreases ls.len(),
{
    if ls.len() == 0 {
        None
    } else {
        match strip_prefix(ls[0], "PRETTY_NAME="@) {
            Some(rest) => Some(trim_quotes(rest)),
            None => pretty_name_in(ls.drop_first()),
        }
    }
}

/// The OS version `/etc/os-release` gives.
pub fn os_release_pretty_name(content: &str) -> (r: Option<String>)
    ensures
        r matches Some(x) ==> pretty_name_in(lines(content@)) == Some(x@),
        r is None ==> pretty_name_in(lines(content@)) is None,
{
    let v = chars_of(content);
    let ls = split_lines(&v);
    let ghost lv = ls@.map_values(|x: Vec<char>| x@);
    assert(lv.subrange(0, lv.len() as int) == lv);
    let mut i: usize = 0;
    while i < ls.len()
        invariant
            i <= ls@.len(),
            lv == ls@.map_values(|x: Vec<char>| x@),
            lv == lines(content@),
            pretty_name_in(lv) == pretty_name_in(lv.subrange(i as int, lv.len() as int)),
        decreases ls.len() - i,
    {
        let ghost rest = lv.subrange(i as int, lv.len() as int);
        assert(rest[0] == ls@[i as int]@);
        assert(rest.drop_first() == lv.subrange(i + 1, lv.len() as int));
        match strip_prefix_str(&ls[i], "PRETTY_NAME=") {
            Some(r) => {
                let a = trim_start_matches_str(&r, "\"");
                let b = trim_end_matches_str(&a, "\"");
                return Some(string_of(&b));
            },
            None => {},
        }
        i = i + 1;
    }
    None
}

/// The second `:`-separated field of a line (`split(':').nth(1)`).
pub open spec fn second_field(l: Seq<char>) -> Option<Seq<char>> {
    let i = index_of(l, ':');
    if i >= l.len() {
        None
    } else {
        let rest = l.subrange(i + 1, l.len() as int);
        Some(rest.subrange(0, index_of(rest, ':')))
    }
}

/// The trimmed value of the first `model name` line that has one.
pub open spec fn model_name_in(ls: Seq<Seq<char>>) -> Option<Seq<char>>
    decreases ls.len(),
{
    if ls.len() == 0 {
        None
    } else if starts_with(ls[0], "model name"@) && second_field(ls[0]) is Some {
        Some(trim(second_field(ls[0])->0))
    } else {
        model_name_in(ls.drop_first())
    }
}

fn second_field_of(l: &[char]) -> (r: Option<Vec<char>>)
    ensures
        r matches Some(x) ==> second_field(l@) == Some(x@),
        r is None ==> second_field(l@) is None,
{
    proof {
        crate::text::lemma_index_of_bounds(l@, ':');
    }
    let i = find_char(l, ':');
    if i >= l.len() {
        return None;
    }
    let rest = slice_of(l, i + 1, l.len());
    proof {
        crate::text::lemma_index_of_bounds(rest@, ':');
    }
    let j = find_char(&rest, ':');
    Some(slice_of(&rest, 0, j))
}

/// The CPU model `/proc/cpuinfo` gives.
pub fn cpuinfo_model_name(content: &str) -> (r: Option<String>)
    ensures
        r matches Some(x) ==> model_name_in(lines(content@)) == Some(x@),
        r is None ==> model_name_in(lines(content@)) is None,
{
    let v = chars_of(content);
    let ls = split_lines(&v);
    let ghost lv = ls@.map_values(|x: Vec<char>| x@);
    assert(lv.subrange(0, lv.len() as int) == lv);
    let mut i: usize = 0;
    while i < ls.len()
        invariant
            i <= ls@.len(),
            lv == ls@.map_values(|x: Vec<char>| x@),
            lv == lines(content@),
            model_name_in(lv) == model_name_in(lv.subrange(i as int, lv.len() as int)),
        decreases ls.len() - i,
    {
        let ghost rest = lv.subrange(i as int, lv.len() as int);
        assert(rest[0] == ls@[i as int]@);
        assert(rest.drop_first() == lv.subrange(i + 1, lv.len() as int));
        if starts_with_str(&ls[i], "model name") {
            match second_field_of(&ls[i]) {
                Some(f) => {
                    let t = trimmed(&f);
                    return Some(string_of(&t));
                },
                None => {},
            }
        }
        i = i + 1;
    }
    None
}

/// A command's output, trimmed; `None` when nothing is left.
pub fn nonempty_output(out: &str) -> (r: Option<String>)
    ensures
        r is Some <==> trim(out@).len() > 0,
        r matches Some(x) ==> x@ == trim(out@),
{
    let t = trimmed(&chars_of(out));
    if t.len() == 0 {
        None
    } else {
        Some(string_of(&t))
    }
}


// ── Running a wrapped tool ───────────────────────────────────────────────────

/// The exit code recorded in the event and the one `wezel` exits with: a
/// tool that could not be started counts as 127, one killed by a signal
/// (no code) as 1; the process exit code keeps the low byte.
pub fn exit_codes(started: bool, code: Option<i32>) -> (r: (i32, u8))
    ensures
        !started ==> r == (127i32, 127u8),
        started ==> r.0 == (match code {
            Some(c) => c,
            None => 1i32,
        }),
        started ==> r.1 == (r.0 as u8),
{
    if !started {
        return (127, 127);
    }
    let c: i32 = match code {
        Some(c) => c,
        None => 1,
    };
    (c, #[verifier::truncate] (c as u8))
}

/// File name of the pheromone handler for `tool`.
pub fn handler_file_name(tool: &str) -> (r: String)
    ensures
        r@ == "pheromone-"@ + tool@,
{
    let mut m: Vec<char> = Vec::new();
    append_str(&mut m, "pheromone-");
    append_str(&mut m, tool);
    string_of(&m)
}

/// File name a handler writes its output to, in the temporary directory.
pub fn pheromone_out_file_name(tool: &str, id: &str) -> (r: String)
    ensures
        r@ == "pheromone-"@ + tool@ + "-"@ + id@ + ".json"@,
{
    let mut m: Vec<char> = Vec::new();
    append_str(&mut m, "pheromone-");
    append_str(&mut m, tool);
    append_str(&mut m, "-");
    append_str(&mut m, id);
    append_str(&mut m, ".json");
    string_of(&m)
}

/// File name of a queued event.
pub fn event_file_name(tool: &str, id: &str) -> (r: String)
    ensures
        r@ == tool@ + "-"@ + id@ + ".json"@,
{
    let mut m: Vec<char> = Vec::new();
    append_str(&mut m, tool);
    append_str(&mut m, "-");
    append_str(&mut m, id);
    append_str(&mut m, ".json");
    string_of(&m)
}

/// A server endpoint: the base URL without trailing slashes, then `path`.
pub fn api_url(server_url: &str, path: &str) -> (r: String)
    ensures
        r@ == trim_end_matches(server_url@, "/"@) + path@,
{
    let base = trim_end_matches_str(&chars_of(server_url), "/");
    let mut m = base;
    append_str(&mut m, path);
    string_of(&m)
}

// ── Pheromone updates ────────────────────────────────────────────────────────

/// What the updater does for one pheromone the server lists.
#[derive(Debug)]
pub enum PheromoneUpdate {
    /// No build for this machine's target.
    NotAvailable,
    /// The installed version is the listed one.
    UpToDate,
    /// Download this release binary.
    Download { binary: String, url: String },
}

/// Release binary name of a pheromone for a target.
pub open spec fn release_binary(name: Seq<char>, target: Seq<char>, windows: bool) -> Seq<char> {
    if windows {
        name + "-"@ + target + ".exe"@
    } else {
        name + "-"@ + target
    }
}

pub open spec fn lists_target(platforms: Seq<String>, target: Seq<char>) -> bool {
    exists|i: int| 0 <= i < platforms.len() && #[trigger] platforms[i]@ == target
}

pub open spec fn installed_is(installed: Option<String>, version: Seq<char>) -> bool {
    installed matches Some(v) && trim(v@) == version
}

pub open spec fn release_download_url(repo: Seq<char>, version: Seq<char>, binary: Seq<char>) -> Seq<char> {
    "https://github.com/"@ + repo + "/releases/download/v"@ + version + "/"@ + binary
}

/// Decides the update of one pheromone: skipped when its platforms do not
/// include `target`, up to date when the recorded version file (trimmed)
/// holds the listed version, downloaded otherwise.
pub fn plan_pheromone_update(
    name: &str,
    github_repo: &str,
    version: &str,
    platforms: &[String],
    target: &str,
    installed: Option<String>,
    windows: bool,
) -> (r: PheromoneUpdate)
    ensures
        !lists_target(platforms@, target@) <==> r is NotAvailable,
        r is UpToDate <==> (lists_target(platforms@, target@) && installed_is(installed, version@)),
        r matches PheromoneUpdate::Download { binary, url } ==> binary@ == release_binary(
            name@,
            target@,
            windows,
        ) && url@ == release_download_url(github_repo@, version@, release_binary(name@, target@, windows)),
{
    let t = chars_of(target);
    let mut found = false;
    let mut i: usize = 0;
    while i < platforms.len()
        invariant
            i <= platforms@.len(),
            t@ == target@,
            found == exists|k: int| 0 <= k < i && #[trigger] platforms@[k]@ == target@,
        decreases platforms.len() - i,
    {
        let p = chars_of(platforms[i].as_str());
        if crate::text::chars_eq(&p, &t) {
            found = true;
            assert(platforms@[i as int]@ == target@);
        } else {
            assert(forall|k: int| 0 <= k < i + 1 && #[trigger] platforms@[k]@ == target@ ==> 0 <= k < i);
        }
        i = i + 1;
    }
    if !found {
        return PheromoneUpdate::NotAvailable;
    }
    match installed {
        Some(v) => {
            let tv = trimmed(&chars_of(v.as_str()));
            let vv = chars_of(version);
            if crate::text::chars_eq(&tv, &vv) {
                return PheromoneUpdate::UpToDate;
            }
        },
        None => {},
    }
    let mut b: Vec<char> = Vec::new();
    append_str(&mut b, name);
    append_str(&mut b, "-");
    append_str(&mut b, target);
    if windows {
        append_str(&mut b, ".exe");
    }
    let mut u: Vec<char> = Vec::new();
    append_str(&mut u, "https://github.com/");
    append_str(&mut u, github_repo);
    append_str(&mut u, "/releases/download/v");
    append_str(&mut u, version);
    append_str(&mut u, "/");
    append_chars(&mut u, &b);
    PheromoneUpdate::Download { binary: string_of(&b), url: string_of(&u) }
}


// ── Configuration layering ───────────────────────────────────────────────────

/// Fields valid in the global `~/.wezel/config.toml`.
#[derive(Debug, Clone, Default)]
pub struct GlobalConfig {
    pub username: Option<String>,
}

pub open spec fn opt_chars(v: Option<String>) -> Option<Seq<char>> {
    match v {
        Some(s) => Some(s@),
        None => None,
    }
}

/// The user name: the project's, else the global one, else the system
/// user; an empty result falls back to the system user too.
pub open spec fn spec_username(project: Option<Seq<char>>, global: Option<Seq<char>>, system: Seq<char>) -> Seq<char> {
    let merged = match project {
        Some(u) => u,
        None => match global {
            Some(g) => g,
            None => system,
        },
    };
    if merged.len() == 0 {
        system
    } else {
        merged
    }
}

pub fn resolve_username(project: Option<String>, global: GlobalConfig, system: String) -> (r: String)
    ensures
        r@ == spec_username(opt_chars(project), opt_chars(global.username), system@),
{
    let merged = match project {
        Some(u) => u,
        None => match global.username {
            Some(g) => g,
            None => system.clone(),
        },
    };
    if merged.as_str().unicode_len() == 0 {
        system
    } else {
        merged
    }
}

pub open spec fn nonempty(v: Option<Seq<char>>) -> Option<Seq<char>> {
    match v {
        Some(s) => if s.len() > 0 {
            Some(s)
        } else {
            None
        },
        None => None,
    }
}

/// The server URL: a non-empty `WEZEL_BURROW_URL` wins over a non-empty
/// configured one.
pub fn resolve_server_url(env: Option<String>, configured: Option<String>) -> (r: Option<String>)
    ensures
        opt_chars(r) == (match nonempty(opt_chars(env)) {
            Some(e) => Some(e),
            None => nonempty(opt_chars(configured)),
        }),
{
    match env {
        Some(e) => if e.as_str().unicode_len() > 0 {
            return Some(e);
        },
        None => {},
    }
    match configured {
        Some(c) => if c.as_str().unicode_len() > 0 {
            Some(c)
        } else {
            None
        },
        None => None,
    }
}

/// The branch that holds standalone state: `wezel/data` unless a
/// non-empty one is configured.
pub fn resolve_data_branch(configured: Option<String>) -> (r: String)
    ensures
        r@ == (match nonempty(opt_chars(configured)) {
            Some(b) => b,
            None => "wezel/data"@,
        }),
{
    match configured {
        Some(c) => if c.as_str().unicode_len() > 0 {
            return c;
        },
        None => {},
    }
    "wezel/data".to_string()
}

// ── The background daemon ────────────────────────────────────────────────────

/// How often the queue is flushed, in milliseconds.
pub const FLUSH_INTERVAL_MS: u64 = 30_000;
/// How often pheromone updates are checked, in milliseconds.
pub const UPDATE_INTERVAL_MS: u64 = 300_000;
/// How long the daemon stays without activity, in milliseconds.
pub const IDLE_TIMEOUT_MS: u64 = 300_000;

/// When the daemon last did each thing, on a monotonic millisecond clock;
/// `None` for never.
#[derive(Debug, Clone, Copy, PartialEq, Eq, Structural)]
pub struct DaemonClock {
    pub last_flush: Option<u64>,
    pub last_update: Option<u64>,
    pub last_activity: u64,
}

/// Time from `since` to `now`, zero if `now` is earlier.
pub open spec fn elapsed(now: u64, since: u64) -> int {
    if now >= since {
        now - since
    } else {
        0
    }
}

pub open spec fn due(last: Option<u64>, now: u64, interval: u64) -> bool {
    match last {
        Some(t) => elapsed(now, t) >= interval,
        None => true,
    }
}

/// What one pass of the daemon loop does.
#[derive(Debug, Clone, Copy, PartialEq, Eq, Structural)]
pub struct DaemonTick {
    pub flush: bool,
    pub update: bool,
}

impl DaemonClock {
    /// A daemon started at `now`: both jobs are due at once.
    pub fn start(now: u64) -> (c: Self)
        ensures
            c.last_flush is None,
            c.last_update is None,
            c.last_activity == now,
    {
        DaemonClock { last_flush: None, last_update: None, last_activity: now }
    }

    /// The jobs due at `now` (each runs only with a configuration at
    /// hand), and the clock with their times set to `now`.
    pub fn plan(self, now: u64, has_config: bool) -> (r: (DaemonClock, DaemonTick))
        ensures
            r.1.flush == (due(self.last_flush, now, FLUSH_INTERVAL_MS) && has_config),
            r.1.update == (due(self.last_update, now, UPDATE_INTERVAL_MS) && has_config),
            r.0.last_flush == (if due(self.last_flush, now, FLUSH_INTERVAL_MS) {
                Some(now)
            } else {
                self.last_flush
            }),
            r.0.last_update == (if due(self.last_update, now, UPDATE_INTERVAL_MS) {
                Some(now)
            } else {
                self.last_update
            }),
            r.0.last_activity == self.last_activity,
    {
        let flush_due = match self.last_flush {
            Some(t) => if now >= t {
                now - t >= FLUSH_INTERVAL_MS
            } else {
                false
            },
            None => true,
        };
        let update_due = match self.last_update {
            Some(t) => if now >= t {
                now - t >= UPDATE_INTERVAL_MS
            } else {
                false
            },
            None => true,
        };
        let next = DaemonClock {
            last_flush: if flush_due {
                Some(now)
            } else {
                self.last_flush
            },
            last_update: if update_due {
                Some(now)
            } else {
                self.last_update
            },
            last_activity: self.last_activity,
        };
        (next, DaemonTick { flush: flush_due && has_config, update: update_due && has_config })
    }

    /// Sending at least one event counts as activity.
    pub fn flushed(self, now: u64, sent: usize) -> (c: DaemonClock)
        ensures
            c.last_flush == self.last_flush,
            c.last_update == self.last_update,
            c.last_activity == (if sent > 0 {
                now
            } else {
                self.last_activity
            }),
    {
        if sent > 0 {
            DaemonClock { last_activity: now, ..self }
        } else {
            self
        }
    }

    /// The daemon exits once the queue is empty and nothing happened for
    /// the idle timeout.
    pub fn should_exit(&self, now: u64, queue_empty: bool) -> (b: bool)
        ensures
            b == (queue_empty && elapsed(now, self.last_activity) >= IDLE_TIMEOUT_MS),
    {
        queue_empty && now >= self.last_activity && now - self.last_activity >= IDLE_TIMEOUT_MS
    }
}


// ── Project status ───────────────────────────────────────────────────────────

/// Where results go, as `wezel project status` shows it.
pub fn target_label(server_url: Option<&str>, data_branch: Option<&str>) -> (r: String)
    ensures
        r@ == (match server_url {
            Some(u) => "server "@ + u@,
            None => match data_branch {
                Some(b) => "data branch "@ + b@,
                None => "(none)"@,
            },
        }),
{
    let mut m: Vec<char> = Vec::new();
    match server_url {
        Some(u) => {
            append_str(&mut m, "server ");
            append_str(&mut m, u);
        },
        None => match data_branch {
            Some(b) => {
                append_str(&mut m, "data branch ");
                append_str(&mut m, b);
            },
            None => append_str(&mut m, "(none)"),
        },
    }
    string_of(&m)
}

/// The note after a declared forager in the status listing.
pub fn forager_note(installed: bool, locked: bool) -> (r: &'static str)
    ensures
        installed && locked ==> r@ == ""@,
        installed && !locked ==> r@ == " (installed but not in wezel.lock)"@,
        !installed && locked ==> r@ == " (locked but not installed — run `wezel project tool sync`)"@,
        !installed && !locked ==> r@ == " (declared but not installed — run `wezel project tool sync`)"@,
{
    if installed && locked {
        ""
    } else if installed {
        " (installed but not in wezel.lock)"
    } else if locked {
        " (locked but not installed — run `wezel project tool sync`)"
    } else {
        " (declared but not installed — run `wezel project tool sync`)"
    }
}

/// Declared foragers the lockfile lacks, in ascending order without
/// repeats, as a set difference of ordered sets yields them.
pub fn missing_from_lock(declared: &[String], locked: &[String]) -> (r: Vec<String>)
    ensures
        crate::alias::strictly_sorted(crate::alias::name_views(r@)),
        crate::alias::name_views(r@).to_set() == crate::alias::name_views(declared@).to_set().difference(
            crate::alias::name_views(locked@).to_set(),
        ),
{
    let mut lock_set = crate::alias::AliasesFile::new();
    let mut j: usize = 0;
    while j < locked.len()
        invariant
            j <= locked@.len(),
            lock_set.wf(),
            lock_set.names().to_set() == crate::alias::name_views(locked@.subrange(0, j as int)).to_set(),
        decreases locked.len() - j,
    {
        lock_set.insert(locked[j].as_str());
        assert(crate::alias::name_views(locked@.subrange(0, j + 1)) == crate::alias::name_views(
            locked@.subrange(0, j as int),
        ).push(locked@[j as int]@));
        proof {
            crate::alias::name_views(locked@.subrange(0, j as int)).lemma_push_to_set_commute(locked@[j as int]@);
        }
        j = j + 1;
    }
    assert(locked@.subrange(0, locked@.len() as int) == locked@);
    let mut out = crate::alias::AliasesFile::new();
    let mut i: usize = 0;
    while i < declared.len()
        invariant
            i <= declared@.len(),
            lock_set.wf(),
            out.wf(),
            lock_set.names().to_set() == crate::alias::name_views(locked@).to_set(),
            out.names().to_set() == crate::alias::name_views(declared@.subrange(0, i as int)).to_set().difference(
                crate::alias::name_views(locked@).to_set(),
            ),
        decreases declared.len() - i,
    {
        assert(crate::alias::name_views(declared@.subrange(0, i + 1)) == crate::alias::name_views(
            declared@.subrange(0, i as int),
        ).push(declared@[i as int]@));
        proof {
            crate::alias::name_views(declared@.subrange(0, i as int)).lemma_push_to_set_commute(declared@[i as int]@);
        }
        if !lock_set.contains(declared[i].as_str()) {
            out.insert(declared[i].as_str());
        }
        assert(out.names().to_set() =~= crate::alias::name_views(declared@.subrange(0, i + 1)).to_set().difference(
            crate::alias::name_views(locked@).to_set(),
        ));
        i = i + 1;
    }
    assert(declared@.subrange(0, declared@.len() as int) == declared@);
    out.to_vec()
}


// ── The daemon's PID file ────────────────────────────────────────────────────

/// What the PID file holds for a process.
pub fn pid_text(pid: u32) -> (r: String)
    ensures
        r@ == crate::text::decimal(pid as nat),
{
    let d = crate::text::u64_digits(pid as u64);
    string_of(&d)
}

/// The PID a PID file names: its trimmed contents read as a `u32`.
pub fn parse_pid(contents: &str) -> (r: Option<u32>)
    ensures
        r matches Some(p) ==> crate::text::parse_unsigned(trim(contents@), u32::MAX as nat) == Some(p as nat),
        r is None ==> crate::text::parse_unsigned(trim(contents@), u32::MAX as nat) is None,
{
    let t = trimmed(&chars_of(contents));
    match crate::text::parse_u64(&t) {
        Some(v) => if v <= 0xffff_ffff {
            Some(v as u32)
        } else {
            None
        },
        None => None,
    }
}

/// The daemon finds the PID it wrote: reading the PID file back gives the
/// PID written to it.
pub proof fn law_pid_file_round_trip(pid: u32)
    ensures
        crate::text::parse_unsigned(trim(crate::text::decimal(pid as nat)), u32::MAX as nat) == Some(
            pid as nat,
        ),
{
    crate::text::lemma_decimal_trimmed(pid as nat);
    crate::text::lemma_decimal_digits(pid as nat);
    let d = crate::text::decimal(pid as nat);
    assert(crate::text::is_digit(d[0]));
    assert(d[0] != '+');
}

/// Nothing makes the daemon leave while it was active within the idle
/// timeout: right after a flush that sent events it keeps running for the
/// whole timeout, whatever the queue holds.
pub proof fn law_activity_keeps_daemon_alive(last_activity: u64, now: u64)
    requires
        last_activity <= now,
        now - last_activity < IDLE_TIMEOUT_MS,
    ensures
        !(elapsed(now, last_activity) >= IDLE_TIMEOUT_MS),
{
}


// ── Files under `~/.wezel` ───────────────────────────────────────────────────

/// The event queue directory, `<wezel dir>/queue`.
pub fn queue_dir(wezel_dir: &str) -> (r: String)
    ensures
        r@ == crate::text::join_path(wezel_dir@, "queue"@),
{
    crate::text::join(wezel_dir, "queue")
}

/// The daemon's PID file, `<wezel dir>/wezel.pid`.
pub fn pid_file(wezel_dir: &str) -> (r: String)
    ensures
        r@ == crate::text::join_path(wezel_dir@, "wezel.pid"@),
{
    crate::text::join(wezel_dir, "wezel.pid")
}

/// The alias list, `<wezel dir>/aliases.toml`.
pub fn aliases_toml_path(wezel_dir: &str) -> (r: String)
    ensures
        r@ == crate::text::join_path(wezel_dir@, "aliases.toml"@),
{
    crate::text::join(wezel_dir, "aliases.toml")
}

/// The file recording which version of a pheromone is installed.
pub fn version_file(pheromone_dir: &str, name: &str) -> (r: String)
    ensures
        r@ == crate::text::join_path(pheromone_dir@, name@ + ".version"@),
{
    let mut m = chars_of(name);
    append_str(&mut m, ".version");
    let f = string_of(&m);
    crate::text::join(pheromone_dir, f.as_str())
}

/// A flush is never sent twice within the flush interval: once the clock
/// recorded a flush at `now`, no flush is due again before the interval
/// has passed. The same holds of pheromone updates and their interval.
pub proof fn law_jobs_spaced_by_their_interval(now: u64, later: u64, interval: u64)
    requires
        now <= later,
        later - now < interval,
    ensures
        !due(Some(now), later, interval),
{
}

/// A pheromone's release binary is `<name>-<target>`, with `.exe` added on
/// Windows and nothing else changed; the download URL ends in it.
pub proof fn law_release_binary_names(name: Seq<char>, target: Seq<char>, repo: Seq<char>, version: Seq<char>, windows: bool)
    ensures
        release_binary(name, target, false) == name + "-"@ + target,
        release_binary(name, target, true) == release_binary(name, target, false) + ".exe"@,
        ({
            let b = release_binary(name, target, windows);
            let u = release_download_url(repo, version, b);
            u.subrange(u.len() - b.len(), u.len() as int) == b
        }),
{
    let b = release_binary(name, target, windows);
    let u = release_download_url(repo, version, b);
    assert(u.subrange(u.len() - b.len(), u.len() as int) =~= b);
}

/// The coarse platform is known for exactly macOS, Linux, Windows and
/// FreeBSD, under their display names; for the first three it is the name
/// the platform label starts with.
pub proof fn law_coarse_platforms(os: Seq<char>, version: Seq<char>, chip: Seq<char>)
    ensures
        spec_coarse_platform(os) is Some <==> (os == "macos"@ || os == "linux"@ || os == "windows"@ || os
            == "freebsd"@),
        os == "macos"@ ==> spec_coarse_platform(os) == Some("macOS"@),
        os == "linux"@ ==> spec_coarse_platform(os) == Some("Linux"@),
        os == "windows"@ ==> spec_coarse_platform(os) == Some("Windows"@),
        os == "freebsd"@ ==> spec_coarse_platform(os) == Some("FreeBSD"@),
        (os == "macos"@ || os == "linux"@ || os == "windows"@) ==> ({
            let l = spec_platform_label(os, version, chip);
            let p = spec_coarse_platform(os)->0;
            p.len() <= l.len() && l.subrange(0, p.len() as int) == p
        }),
{
    reveal_strlit("macos");
    reveal_strlit("linux");
    reveal_strlit("windows");
    reveal_strlit("freebsd");
    reveal_strlit("macOS");
    reveal_strlit("Linux");
    reveal_strlit("Windows");
    reveal_strlit("FreeBSD");
    if os == "linux"@ {
        assert(os[0] != "macos"@[0]);
    }
    if os == "windows"@ {
        assert(os[0] != "macos"@[0] && os[0] != "linux"@[0]);
    }
    if os == "freebsd"@ {
        assert(os[0] != "macos"@[0] && os[0] != "linux"@[0] && os[0] != "windows"@[0]);
    }
    if os == "macos"@ || os == "linux"@ || os == "windows"@ {
        let l = spec_platform_label(os, version, chip);
        let p = spec_coarse_platform(os)->0;
        assert(p == os_display(os));
        assert(l.subrange(0, p.len() as int) =~= p);
    }
}

} // verus!
