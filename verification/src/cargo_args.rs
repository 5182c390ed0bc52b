//! Recognising cargo invocations: which subcommand, which profile and which
//! packages a command line asks for, and which crates cargo reports as
//! being compiled on its stderr.
use vstd::prelude::*;
use vstd::utf8::{decode_utf8, valid_utf8};

use crate::text::{
    chars_of, eq_str, is_whitespace, is_ws, slice_of, starts_with, starts_with_str, string_of,
    strip_prefix, strip_prefix_str, trim, trim_start, trimmed,
};
use crate::types::Profile;

verus! {

// ── Specifications ───────────────────────────────────────────────────────────

/// The cargo subcommands (and their short aliases) that trigger a build.
pub open spec fn is_build_cmd(c: Seq<char>) -> bool {
    ||| c == "build"@
    ||| c == "b"@
    ||| c == "check"@
    ||| c == "c"@
    ||| c == "test"@
    ||| c == "t"@
    ||| c == "bench"@
    ||| c == "run"@
    ||| c == "r"@
    ||| c == "clippy"@
    ||| c == "doc"@
    ||| c == "d"@
    ||| c == "rustc"@
    ||| c == "rustdoc"@
}

/// Short aliases mapped to their canonical subcommand; anything else is kept.
pub open spec fn spec_normalize_command(c: Seq<char>) -> Seq<char> {
    if c == "b"@ {
        "build"@
    } else if c == "c"@ {
        "check"@
    } else if c == "t"@ {
        "test"@
    } else if c == "r"@ {
        "run"@
    } else if c == "d"@ {
        "doc"@
    } else {
        c
    }
}

/// Global flags that precede the subcommand and consume the next argument.
pub open spec fn is_valued_global_flag(s: Seq<char>) -> bool {
    s == "--manifest-path"@ || s == "--config"@ || s == "-Z"@ || s == "--color"@ || s == "-C"@
}

/// The profile a `--profile` value selects.
pub open spec fn profile_of(v: Seq<char>) -> Profile {
    if v == "release"@ || v == "bench"@ {
        Profile::Release
    } else {
        Profile::Dev
    }
}

/// Index of the subcommand: the first argument, at or after `i`, that is
/// not a flag, skipping the value of each valued global flag.
pub open spec fn command_index(args: Seq<Seq<char>>, i: int) -> Option<int>
    decreases args.len() - i,
{
    if i < 0 || i >= args.len() {
        None
    } else if starts_with(args[i], "-"@) {
        if is_valued_global_flag(args[i]) {
            if i + 1 >= args.len() {
                None
            } else {
                command_index(args, i + 2)
            }
        } else {
            command_index(args, i + 1)
        }
    } else {
        Some(i)
    }
}

/// The profile and packages selected by the arguments from `j` on, starting
/// from `profile` and `packages`.
pub open spec fn scan_options(
    args: Seq<Seq<char>>,
    j: int,
    profile: Profile,
    packages: Seq<Seq<char>>,
) -> (Profile, Seq<Seq<char>>)
    decreases args.len() - j,
{
    if j < 0 || j >= args.len() {
        (profile, packages)
    } else {
        let s = args[j];
        if s == "--release"@ {
            scan_options(args, j + 1, Profile::Release, packages)
        } else if s == "--profile"@ {
            if j + 1 < args.len() {
                scan_options(args, j + 2, profile_of(args[j + 1]), packages)
            } else {
                (profile, packages)
            }
        } else if s == "-p"@ || s == "--package"@ {
            if j + 1 < args.len() {
                scan_options(args, j + 2, profile, packages.push(args[j + 1]))
            } else {
                (profile, packages)
            }
        } else if starts_with(s, "--package="@) {
            scan_options(
                args,
                j + 1,
                profile,
                packages.push(s.subrange("--package="@.len() as int, s.len() as int)),
            )
        } else if starts_with(s, "--profile="@) {
            scan_options(
                args,
                j + 1,
                profile_of(s.subrange("--profile="@.len() as int, s.len() as int)),
                packages,
            )
        } else {
            scan_options(args, j + 1, profile, packages)
        }
    }
}

/// What `parse_args` extracts from a cargo command line: `None` unless the
/// subcommand is a build command; otherwise the canonical subcommand, the
/// profile (dev unless selected otherwise) and the packages, in order.
pub open spec fn spec_parse_args(args: Seq<Seq<char>>) -> Option<(Seq<char>, Profile, Seq<Seq<char>>)> {
    match command_index(args, 0) {
        None => None,
        Some(i) => if !is_build_cmd(args[i]) {
            None
        } else {
            let (p, pk) = scan_options(args, i + 1, Profile::Dev, Seq::empty());
            Some((spec_normalize_command(args[i]), p, pk))
        },
    }
}

/// The views of a sequence of strings.
pub open spec fn views(v: Seq<String>) -> Seq<Seq<char>> {
    v.map_values(|s: String| s@)
}

pub open spec fn is_ascii_alpha(c: char) -> bool {
    let u = c as u32;
    (0x41 <= u && u <= 0x5A) || (0x61 <= u && u <= 0x7A)
}

pub open spec fn esc() -> char {
    '\x1b'
}

/// `s` with ANSI escape sequences removed. `in_esc` tells whether an escape
/// sequence is open: it runs from ESC up to and including the next ASCII
/// letter (or to the end).
pub open spec fn strip_ansi_from(s: Seq<char>, in_esc: bool) -> Seq<char>
    decreases s.len(),
{
    if s.len() == 0 {
        s
    } else if in_esc {
        strip_ansi_from(s.drop_first(), !is_ascii_alpha(s[0]))
    } else if s[0] == esc() {
        strip_ansi_from(s.drop_first(), true)
    } else {
        seq![s[0]] + strip_ansi_from(s.drop_first(), false)
    }
}

pub open spec fn spec_strip_ansi(s: Seq<char>) -> Seq<char> {
    strip_ansi_from(s, false)
}

/// Index of the first whitespace character (or `s.len()`).
pub open spec fn ws_index(s: Seq<char>) -> int
    decreases s.len(),
{
    if s.len() == 0 {
        0
    } else if is_ws(s[0]) {
        0
    } else {
        1 + ws_index(s.drop_first())
    }
}

/// The first whitespace-separated word of `s`, if any.
pub open spec fn first_word(s: Seq<char>) -> Option<Seq<char>> {
    let t = trim_start(s);
    if t.len() == 0 {
        None
    } else {
        Some(t.subrange(0, ws_index(t)))
    }
}

/// The crate name on a `Compiling <name> ...` line of cargo's stderr.
pub open spec fn spec_parse_compiling_line(line: Seq<char>) -> Option<Seq<char>> {
    match strip_prefix(trim(spec_strip_ansi(line)), "Compiling "@) {
        None => None,
        Some(rest) => first_word(rest),
    }
}

// ── Lemmas ───────────────────────────────────────────────────────────────────

pub proof fn lemma_ws_index(s: Seq<char>, i: int)
    requires
        0 <= i <= s.len(),
        i < s.len() ==> is_ws(s[i]),
        forall|k: int| 0 <= k < i ==> !is_ws(s[k]),
    ensures
        ws_index(s) == i,
    decreases s.len(),
{
    if s.len() > 0 && !is_ws(s[0]) {
        lemma_ws_index(s.drop_first(), i - 1);
    }
}

// ── Executable ───────────────────────────────────────────────────────────────

/// Normalize short aliases to their canonical form.
pub fn normalize_command(cmd: &str) -> (r: &str)
    ensures
        r@ == spec_normalize_command(cmd@),
{
    let v = chars_of(cmd);
    if eq_str(&v, "b") {
        "build"
    } else if eq_str(&v, "c") {
        "check"
    } else if eq_str(&v, "t") {
        "test"
    } else if eq_str(&v, "r") {
        "run"
    } else if eq_str(&v, "d") {
        "doc"
    } else {
        cmd
    }
}

fn is_build_chars(v: &[char]) -> (b: bool)
    ensures
        b == is_build_cmd(v@),
{
    eq_str(v, "build") || eq_str(v, "b") || eq_str(v, "check") || eq_str(v, "c") || eq_str(
        v,
        "test",
    ) || eq_str(v, "t") || eq_str(v, "bench") || eq_str(v, "run") || eq_str(v, "r") || eq_str(
        v,
        "clippy",
    ) || eq_str(v, "doc") || eq_str(v, "d") || eq_str(v, "rustc") || eq_str(v, "rustdoc")
}

/// Whether a cargo subcommand triggers a build.
pub fn is_build_command(cmd: &str) -> (b: bool)
    ensures
        b == is_build_cmd(cmd@),
{
    let v = chars_of(cmd);
    is_build_chars(&v)
}

fn is_valued_global_flag_chars(v: &[char]) -> (b: bool)
    ensures
        b == is_valued_global_flag(v@),
{
    eq_str(v, "--manifest-path") || eq_str(v, "--config") || eq_str(v, "-Z") || eq_str(
        v,
        "--color",
    ) || eq_str(v, "-C")
}

fn profile_of_chars(v: &[char]) -> (p: Profile)
    ensures
        p == profile_of(v@),
{
    if eq_str(v, "release") || eq_str(v, "bench") {
        Profile::Release
    } else {
        Profile::Dev
    }
}

/// Command, profile and packages of a cargo invocation that builds.
pub struct ParsedArgs {
    pub command: String,
    pub profile: Profile,
    pub packages: Vec<String>,
}

/// Best-effort parse of cargo CLI args to extract command, profile, and
/// packages. `None` when no subcommand is found or it does not build.
pub fn parse_args(args: &[String]) -> (r: Option<ParsedArgs>)
    ensures
        r is None <==> spec_parse_args(views(args@)) is None,
        r matches Some(pa) ==> spec_parse_args(views(args@)) == Some(
            (pa.command@, pa.profile, views(pa.packages@)),
        ),
{
    let ghost a = views(args@);
    let n = args.len();
    // Skip leading global flags to find the subcommand.
    let mut i: usize = 0;
    let mut found: Option<usize> = None;
    while i < n
        invariant_except_break
            found is None,
        invariant
            n == args@.len(),
            a == views(args@),
            i <= n,
            command_index(a, 0) == command_index(a, i as int),
        ensures
            found is None ==> command_index(a, 0) is None,
            found matches Some(ci) ==> ci < n && command_index(a, 0) == Some(ci as int),
        decreases n - i,
    {
        let s = chars_of(args[i].as_str());
        assert(s@ == a[i as int]);
        if starts_with_str(&s, "-") {
            if is_valued_global_flag_chars(&s) {
                if i + 1 < n {
                    i = i + 2;
                } else {
                    i = n;
                }
            } else {
                i = i + 1;
            }
        } else {
            found = Some(i);
            break;
        }
    }
    let ci = match found {
        None => {
            return None;
        },
        Some(ci) => ci,
    };
    assert(command_index(a, 0) == Some(ci as int));
    let cmd = chars_of(args[ci].as_str());
    if !is_build_chars(&cmd) {
        return None;
    }
    let mut profile = Profile::Dev;
    let mut packages: Vec<String> = Vec::new();
    let mut j: usize = ci + 1;
    assert(views(packages@) == Seq::<Seq<char>>::empty());
    while j < n
        invariant
            n == args@.len(),
            a == views(args@),
            ci < j <= n,
            scan_options(a, ci + 1, Profile::Dev, Seq::empty()) == scan_options(
                a,
                j as int,
                profile,
                views(packages@),
            ),
        decreases n - j,
    {
        let s = chars_of(args[j].as_str());
        assert(s@ == a[j as int]);
        if eq_str(&s, "--release") {
            profile = Profile::Release;
            j = j + 1;
        } else if eq_str(&s, "--profile") {
            if j + 1 < n {
                let val = chars_of(args[j + 1].as_str());
                profile = profile_of_chars(&val);
                j = j + 2;
            } else {
                j = n;
            }
        } else if eq_str(&s, "-p") || eq_str(&s, "--package") {
            if j + 1 < n {
                let ghost before = packages@;
                packages.push(args[j + 1].clone());
                assert(views(packages@) == views(before).push(a[j + 1]));
                j = j + 2;
            } else {
                j = n;
            }
        } else if let Some(val) = strip_prefix_str(&s, "--package=") {
            let ghost before = packages@;
            packages.push(string_of(&val));
            assert(views(packages@) == views(before).push(val@));
            j = j + 1;
        } else if let Some(val) = strip_prefix_str(&s, "--profile=") {
            profile = profile_of_chars(&val);
            j = j + 1;
        } else {
            j = j + 1;
        }
    }
    let command = normalize_command(args[ci].as_str()).to_owned();
    Some(ParsedArgs { command, profile, packages })
}

fn is_ascii_alphabetic(c: char) -> (b: bool)
    ensures
        b == is_ascii_alpha(c),
{
    let u = c as u32;
    (0x41 <= u && u <= 0x5A) || (0x61 <= u && u <= 0x7A)
}

fn strip_ansi_chars(v: &[char]) -> (out: Vec<char>)
    ensures
        out@ == spec_strip_ansi(v@),
{
    let n = v.len();
    let mut out: Vec<char> = Vec::new();
    let mut in_esc = false;
    let mut i: usize = 0;
    assert(v@.subrange(0, n as int) == v@);
    while i < n
        invariant
            n == v@.len(),
            i <= n,
            spec_strip_ansi(v@) == out@ + strip_ansi_from(v@.subrange(i as int, n as int), in_esc),
        decreases n - i,
    {
        let c = v[i];
        let ghost rest = v@.subrange(i as int, n as int);
        assert(rest.drop_first() == v@.subrange(i + 1, n as int));
        if in_esc {
            in_esc = !is_ascii_alphabetic(c);
        } else if c == '\x1b' {
            in_esc = true;
        } else {
            let ghost o = out@;
            out.push(c);
            assert(o + (seq![c] + strip_ansi_from(rest.drop_first(), false)) == out@
                + strip_ansi_from(rest.drop_first(), false));
        }
        i = i + 1;
    }
    assert(out@ + strip_ansi_from(Seq::<char>::empty(), in_esc) == out@);
    assert(v@.subrange(n as int, n as int) == Seq::<char>::empty());
    out
}

/// Strip ANSI escape sequences from a string so its plain text can be
/// pattern-matched.
pub fn strip_ansi(s: &str) -> (r: String)
    ensures
        r@ == spec_strip_ansi(s@),
{
    let v = chars_of(s);
    let out = strip_ansi_chars(&v);
    string_of(&out)
}

fn first_word_chars(v: &[char]) -> (r: Option<Vec<char>>)
    ensures
        r is None <==> first_word(v@) is None,
        r matches Some(w) ==> first_word(v@) == Some(w@),
{
    let n = v.len();
    let mut i: usize = 0;
    assert(v@.subrange(0, n as int) == v@);
    while i < n && is_whitespace(v[i])
        invariant
            n == v@.len(),
            i <= n,
            trim_start(v@) == trim_start(v@.subrange(i as int, n as int)),
        decreases n - i,
    {
        assert(v@.subrange(i as int, n as int).drop_first() == v@.subrange(i + 1, n as int));
        i = i + 1;
    }
    let ghost t = v@.subrange(i as int, n as int);
    assert(trim_start(v@) == t);
    if i == n {
        return None;
    }
    let mut j = i;
    while j < n && !is_whitespace(v[j])
        invariant
            n == v@.len(),
            i <= j <= n,
            t == v@.subrange(i as int, n as int),
            forall|k: int| i <= k < j ==> !is_ws(v@[k]),
        decreases n - j,
    {
        j = j + 1;
    }
    proof {
        lemma_ws_index(t, j - i);
    }
    Some(slice_of(v, i, j))
}

/// Extract a crate name from a cargo stderr line like
/// `   Compiling foo v0.1.0 (/path/to/foo)`, with or without ANSI colors.
pub fn parse_compiling_line(line: &str) -> (r: Option<String>)
    ensures
        r is None <==> spec_parse_compiling_line(line@) is None,
        r matches Some(name) ==> spec_parse_compiling_line(line@) == Some(name@),
{
    let v = chars_of(line);
    let clean = strip_ansi_chars(&v);
    let t = trimmed(&clean);
    match strip_prefix_str(&t, "Compiling ") {
        None => None,
        Some(rest) => match first_word_chars(&rest) {
            None => None,
            Some(w) => Some(string_of(&w)),
        },
    }
}


// ── Reading cargo's stderr stream ────────────────────────────────────────────

/// Line terminators on cargo's stderr: `\n`, and `\r` for progress redraws.
pub open spec fn is_eol(b: u8) -> bool {
    b == 10 || b == 13
}

/// The crate compiled on one line of raw stderr bytes, if the line is
/// non-empty UTF-8 naming one.
pub open spec fn line_crate(line: Seq<u8>) -> Option<Seq<char>> {
    if line.len() > 0 && valid_utf8(line) {
        spec_parse_compiling_line(decode_utf8(line))
    } else {
        None
    }
}

pub open spec fn opt_seq(o: Option<Seq<char>>) -> Seq<Seq<char>> {
    match o {
        Some(x) => seq![x],
        None => Seq::empty(),
    }
}

/// Feeding `chunk` to a scanner holding the partial line `buf`: the crate
/// names of the lines completed in `chunk`, and the new partial line.
pub open spec fn scan_chunk(buf: Seq<u8>, chunk: Seq<u8>) -> (Seq<Seq<char>>, Seq<u8>)
    decreases chunk.len(),
{
    if chunk.len() == 0 {
        (Seq::empty(), buf)
    } else if is_eol(chunk[0]) {
        let (ns, nb) = scan_chunk(Seq::empty(), chunk.drop_first());
        (opt_seq(line_crate(buf)) + ns, nb)
    } else {
        scan_chunk(buf.push(chunk[0]), chunk.drop_first())
    }
}

/// `std::str::from_utf8`, returning an owned string.
#[verifier::external_body]
fn utf8_to_string(bytes: &[u8]) -> (r: Option<String>)
    ensures
        r is Some <==> valid_utf8(bytes@),
        r matches Some(s) ==> s@ == decode_utf8(bytes@),
{
    std::str::from_utf8(bytes).ok().map(|s| s.to_string())
}

fn line_crate_exec(line: &[u8]) -> (r: Option<String>)
    ensures
        r is None <==> line_crate(line@) is None,
        r matches Some(n) ==> line_crate(line@) == Some(n@),
{
    if line.len() == 0 {
        return None;
    }
    match utf8_to_string(line) {
        None => None,
        Some(s) => parse_compiling_line(s.as_str()),
    }
}

/// Collects the names of crates that cargo reports as compiling, from its
/// stderr delivered in arbitrary chunks.
pub struct CompileLogScanner {
    line_buf: Vec<u8>,
}

impl CompileLogScanner {
    /// The bytes of the line read so far but not yet terminated.
    pub closed spec fn pending(&self) -> Seq<u8> {
        self.line_buf@
    }

    pub fn new() -> (s: Self)
        ensures
            s.pending() == Seq::<u8>::empty(),
    {
        CompileLogScanner { line_buf: Vec::new() }
    }

    /// Consumes a chunk; returns the crates of the lines it completed.
    pub fn feed(&mut self, chunk: &[u8]) -> (names: Vec<String>)
        ensures
            (views(names@), final(self).pending()) == scan_chunk(old(self).pending(), chunk@),
    {
        let n = chunk.len();
        let mut names: Vec<String> = Vec::new();
        let mut i: usize = 0;
        assert(chunk@.subrange(0, n as int) == chunk@);
        while i < n
            invariant
                n == chunk@.len(),
                i <= n,
                ({
                    let (ns, nb) = scan_chunk(self.line_buf@, chunk@.subrange(i as int, n as int));
                    scan_chunk(old(self).pending(), chunk@) == (views(names@) + ns, nb)
                }),
            decreases n - i,
        {
            let b = chunk[i];
            let ghost rest = chunk@.subrange(i as int, n as int);
            assert(rest.drop_first() == chunk@.subrange(i + 1, n as int));
            if b == 10 || b == 13 {
                let found = line_crate_exec(self.line_buf.as_slice());
                let ghost before = names@;
                match found {
                    Some(name) => {
                        names.push(name);
                        assert(views(names@) == views(before) + seq![name@]);
                    },
                    None => {},
                }
                let ghost (ns, nb) = scan_chunk(Seq::empty(), rest.drop_first());
                assert(views(names@) + ns == views(before) + (opt_seq(line_crate(self.line_buf@)) + ns));
                self.line_buf = Vec::new();
            } else {
                self.line_buf.push(b);
            }
            i = i + 1;
        }
        assert(chunk@.subrange(n as int, n as int) == Seq::<u8>::empty());
        assert(views(names@) + Seq::<Seq<char>>::empty() == views(names@));
        names
    }

    /// The crate named by trailing content that no terminator ended.
    pub fn finish(&self) -> (r: Option<String>)
        ensures
            r is None <==> line_crate(self.pending()) is None,
            r matches Some(n) ==> line_crate(self.pending()) == Some(n@),
    {
        line_crate_exec(self.line_buf.as_slice())
    }
}

/// Chunk boundaries do not matter: feeding `c1` then `c2` yields the same
/// crate names, in order, and the same partial line as feeding `c1 + c2`.
pub proof fn lemma_scan_chunk_split(buf: Seq<u8>, c1: Seq<u8>, c2: Seq<u8>)
    ensures
        ({
            let (n1, b1) = scan_chunk(buf, c1);
            let (n2, b2) = scan_chunk(b1, c2);
            scan_chunk(buf, c1 + c2) == (n1 + n2, b2)
        }),
    decreases c1.len(),
{
    if c1.len() == 0 {
        assert(c1 + c2 == c2);
        let (n2, b2) = scan_chunk(buf, c2);
        assert(Seq::<Seq<char>>::empty() + n2 == n2);
    } else {
        assert((c1 + c2).drop_first() == c1.drop_first() + c2);
        if is_eol(c1[0]) {
            lemma_scan_chunk_split(Seq::empty(), c1.drop_first(), c2);
            let (ns, nb) = scan_chunk(Seq::empty(), c1.drop_first());
            let (n2, b2) = scan_chunk(nb, c2);
            assert(opt_seq(line_crate(buf)) + ns + n2 == opt_seq(line_crate(buf)) + (ns + n2));
        } else {
            lemma_scan_chunk_split(buf.push(c1[0]), c1.drop_first(), c2);
        }
    }
}

/// The command lines cargo builds on: a lone subcommand is observed exactly
/// when it is one of `build`, `b`, `check`, `c`, `test`, `t`, `bench`,
/// `run`, `r`, `clippy`, `doc`, `d`, `rustc`, `rustdoc`; it is then
/// reported under its full name, with the dev profile and no packages.
pub proof fn law_build_command_lines(c: Seq<char>)
    requires
        !starts_with(c, "-"@),
    ensures
        is_build_cmd(c) <==> spec_parse_args(seq![c]) is Some,
        spec_parse_args(seq![c]) is Some <==> (c == "build"@ || c == "b"@ || c == "check"@ || c == "c"@
            || c == "test"@ || c == "t"@ || c == "bench"@ || c == "run"@ || c == "r"@ || c == "clippy"@
            || c == "doc"@ || c == "d"@ || c == "rustc"@ || c == "rustdoc"@),
        (c == "build"@ || c == "check"@ || c == "test"@ || c == "bench"@ || c == "run"@ || c == "clippy"@
            || c == "doc"@ || c == "rustc"@ || c == "rustdoc"@) ==> spec_parse_args(seq![c]) == Some(
            (c, Profile::Dev, Seq::<Seq<char>>::empty()),
        ),
        c == "b"@ ==> spec_parse_args(seq![c]) == Some(("build"@, Profile::Dev, Seq::<Seq<char>>::empty())),
        c == "c"@ ==> spec_parse_args(seq![c]) == Some(("check"@, Profile::Dev, Seq::<Seq<char>>::empty())),
        c == "t"@ ==> spec_parse_args(seq![c]) == Some(("test"@, Profile::Dev, Seq::<Seq<char>>::empty())),
        c == "r"@ ==> spec_parse_args(seq![c]) == Some(("run"@, Profile::Dev, Seq::<Seq<char>>::empty())),
        c == "d"@ ==> spec_parse_args(seq![c]) == Some(("doc"@, Profile::Dev, Seq::<Seq<char>>::empty())),
{
    let a = seq![c];
    assert(command_index(a, 0) == Some(0int));
    assert(a[0] == c);
    assert(scan_options(a, 1, Profile::Dev, Seq::empty()) == (Profile::Dev, Seq::<Seq<char>>::empty()));
    reveal_strlit("build");
    reveal_strlit("b");
    reveal_strlit("check");
    reveal_strlit("c");
    reveal_strlit("test");
    reveal_strlit("t");
    reveal_strlit("bench");
    reveal_strlit("run");
    reveal_strlit("r");
    reveal_strlit("clippy");
    reveal_strlit("doc");
    reveal_strlit("d");
    reveal_strlit("rustc");
    reveal_strlit("rustdoc");
    if c == "c"@ {
        assert(c[0] != "b"@[0]);
        assert(spec_normalize_command(c) == "check"@);
    }
    if c == "t"@ {
        assert(c[0] != "b"@[0] && c[0] != "c"@[0]);
        assert(spec_normalize_command(c) == "test"@);
    }
    if c == "r"@ {
        assert(c[0] != "b"@[0] && c[0] != "c"@[0] && c[0] != "t"@[0]);
        assert(spec_normalize_command(c) == "run"@);
    }
    if c == "d"@ {
        assert(c[0] != "b"@[0] && c[0] != "c"@[0] && c[0] != "t"@[0] && c[0] != "r"@[0]);
        assert(spec_normalize_command(c) == "doc"@);
    }
}

/// Options after a build subcommand: `--release` and `--profile release`
/// (or `bench`) select the release profile, any other profile name dev;
/// `-p X`, `--package X` and `--package=X` each add package `X`.
pub proof fn law_build_options(c: Seq<char>, x: Seq<char>)
    requires
        !starts_with(c, "-"@),
        is_build_cmd(c),
    ensures
        spec_parse_args(seq![c, "--release"@]) == Some(
            (spec_normalize_command(c), Profile::Release, Seq::<Seq<char>>::empty()),
        ),
        spec_parse_args(seq![c, "--profile"@, "release"@]) == Some(
            (spec_normalize_command(c), Profile::Release, Seq::<Seq<char>>::empty()),
        ),
        spec_parse_args(seq![c, "--profile"@, "bench"@]) == Some(
            (spec_normalize_command(c), Profile::Release, Seq::<Seq<char>>::empty()),
        ),
        x != "release"@ && x != "bench"@ ==> spec_parse_args(seq![c, "--profile"@, x]) == Some(
            (spec_normalize_command(c), Profile::Dev, Seq::<Seq<char>>::empty()),
        ),
        spec_parse_args(seq![c, "-p"@, x]) == Some((spec_normalize_command(c), Profile::Dev, seq![x])),
        spec_parse_args(seq![c, "--package"@, x]) == Some((spec_normalize_command(c), Profile::Dev, seq![x])),
        spec_parse_args(seq![c, "--package="@ + x]) == Some(
            (spec_normalize_command(c), Profile::Dev, seq![x]),
        ),
{
    reveal_strlit("--release");
    reveal_strlit("--profile");
    reveal_strlit("-p");
    reveal_strlit("--package");
    reveal_strlit("--package=");
    let a1 = seq![c, "--release"@];
    assert(command_index(a1, 0) == Some(0int));
    assert(a1[1] == "--release"@);
    assert(scan_options(a1, 2, Profile::Release, Seq::empty()) == (Profile::Release, Seq::<Seq<char>>::empty()));
    let a2 = seq![c, "--profile"@, "release"@];
    assert(command_index(a2, 0) == Some(0int));
    assert(a2[1] == "--profile"@);
    assert(a2[1] != "--release"@) by {
        assert(a2[1][2] != "--release"@[2]);
    }
    assert(scan_options(a2, 3, Profile::Release, Seq::empty()) == (Profile::Release, Seq::<Seq<char>>::empty()));
    let a3 = seq![c, "--profile"@, "bench"@];
    assert(command_index(a3, 0) == Some(0int));
    assert(a3[1] == "--profile"@);
    assert(a3[1] != "--release"@) by {
        assert(a3[1][2] != "--release"@[2]);
    }
    assert(scan_options(a3, 3, Profile::Release, Seq::empty()) == (Profile::Release, Seq::<Seq<char>>::empty()));
    let a4 = seq![c, "--profile"@, x];
    assert(command_index(a4, 0) == Some(0int));
    assert(a4[1] == "--profile"@);
    assert(a4[1] != "--release"@) by {
        assert(a4[1][2] != "--release"@[2]);
    }
    assert(scan_options(a4, 3, profile_of(x), Seq::empty()) == (profile_of(x), Seq::<Seq<char>>::empty()));
    let a5 = seq![c, "-p"@, x];
    assert(command_index(a5, 0) == Some(0int));
    assert(a5[1] == "-p"@);
    assert(a5[1] != "--release"@ && a5[1] != "--profile"@) by {
        assert(a5[1].len() != "--release"@.len() && a5[1].len() != "--profile"@.len());
    }
    assert(Seq::<Seq<char>>::empty().push(x) =~= seq![x]);
    assert(scan_options(a5, 3, Profile::Dev, seq![x]) == (Profile::Dev, seq![x]));
    let a6 = seq![c, "--package"@, x];
    assert(command_index(a6, 0) == Some(0int));
    assert(a6[1] == "--package"@);
    assert(a6[1] != "--release"@ && a6[1] != "--profile"@ && a6[1] != "-p"@) by {
        assert(a6[1][2] != "--release"@[2]);
        assert(a6[1][3] != "--profile"@[3]);
    }
    assert(scan_options(a6, 3, Profile::Dev, seq![x]) == (Profile::Dev, seq![x]));
    let y = "--package="@ + x;
    let a7 = seq![c, y];
    assert(command_index(a7, 0) == Some(0int));
    assert(a7[1] == y);
    assert(y.len() >= 10);
    assert(y[2] == 'p' && y[3] == 'a' && y[9] == '=');
    assert(y != "--release"@ && y != "--profile"@ && y != "-p"@ && y != "--package"@) by {
        assert(y[2] != "--release"@[2]);
        assert(y[3] != "--profile"@[3]);
        assert(y.len() != "-p"@.len());
        assert(y.len() != "--package"@.len());
    }
    assert(y.subrange(0, "--package="@.len() as int) =~= "--package="@);
    assert(y.subrange("--package="@.len() as int, y.len() as int) =~= x);
    assert(scan_options(a7, 2, Profile::Dev, seq![x]) == (Profile::Dev, seq![x]));
}

} // verus!
