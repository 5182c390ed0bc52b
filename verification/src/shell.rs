//! Shell integration: which shell is in use, where its rc file lives, and the
//! scripts that route aliased tools through `wezel exec`.
use vstd::prelude::*;

use crate::alias::{name_views, AliasesFile};
use crate::text::{append_str, chars_of, contains, contains_str, join, join_path, string_of};

verus! {

/// Marks the start of the block wezel adds to a shell rc file.
pub open spec fn source_marker() -> Seq<char> {
    "# >>> wezel pheromone >>>"@
}

/// Marks the end of that block.
pub open spec fn source_end() -> Seq<char> {
    "# <<< wezel pheromone <<<"@
}

/// First line of every generated init script.
pub open spec fn init_header() -> Seq<char> {
    "# Managed by wezel — do not edit, aliases are stored in aliases.toml\n"@
}

#[derive(Debug, Clone, Copy, PartialEq, Eq, Structural)]
pub enum Shell {
    Zsh,
    Bash,
    Fish,
}

/// The shell named by a `$SHELL` value: zsh, then bash, then fish.
pub open spec fn spec_shell_from_var(s: Seq<char>) -> Option<Shell> {
    if contains(s, "zsh"@) {
        Some(Shell::Zsh)
    } else if contains(s, "bash"@) {
        Some(Shell::Bash)
    } else if contains(s, "fish"@) {
        Some(Shell::Fish)
    } else {
        None
    }
}

pub open spec fn init_script_name(sh: Shell) -> Seq<char> {
    match sh {
        Shell::Zsh => "init.zsh"@,
        Shell::Bash => "init.bash"@,
        Shell::Fish => "init.fish"@,
    }
}

pub open spec fn rc_file_name(sh: Shell, bashrc_exists: bool) -> Seq<char> {
    match sh {
        Shell::Zsh => ".zshrc"@,
        Shell::Bash => if bashrc_exists {
            ".bashrc"@
        } else {
            ".bash_profile"@
        },
        Shell::Fish => ".config/fish/conf.d/wezel.fish"@,
    }
}

pub open spec fn spec_source_block(sh: Shell, p: Seq<char>) -> Seq<char> {
    match sh {
        Shell::Fish => source_marker() + "\nif test -f \""@ + p + "\"\n    source \""@ + p
            + "\"\nend\n"@ + source_end(),
        _ => source_marker() + "\n[[ -f \""@ + p + "\" ]] && source \""@ + p + "\"\n"@
            + source_end(),
    }
}

pub open spec fn spec_alias_line(sh: Shell, tool: Seq<char>) -> Seq<char> {
    match sh {
        Shell::Fish => "alias "@ + tool + " \"wezel exec -- "@ + tool + "\""@,
        _ => "alias "@ + tool + "=\"wezel exec -- "@ + tool + "\""@,
    }
}

/// One alias line per tool, each followed by a newline.
pub open spec fn alias_lines(sh: Shell, tools: Seq<Seq<char>>) -> Seq<char>
    decreases tools.len(),
{
    if tools.len() == 0 {
        Seq::empty()
    } else {
        alias_lines(sh, tools.drop_last()) + spec_alias_line(sh, tools.last()) + "\n"@
    }
}

impl Shell {
    /// The shell named by the value of `$SHELL`.
    pub fn from_shell_var(shell: &str) -> (r: Option<Shell>)
        ensures
            r == spec_shell_from_var(shell@),
    {
        let v = chars_of(shell);
        if contains_str(&v, "zsh") {
            Some(Shell::Zsh)
        } else if contains_str(&v, "bash") {
            Some(Shell::Bash)
        } else if contains_str(&v, "fish") {
            Some(Shell::Fish)
        } else {
            None
        }
    }

    /// The rc file to hook, under the home directory `home`. Bash uses
    /// `.bashrc` when it exists and `.bash_profile` otherwise.
    pub fn rc_path(self, home: &str, bashrc_exists: bool) -> (r: String)
        ensures
            r@ == join_path(home@, rc_file_name(self, bashrc_exists)),
    {
        match self {
            Shell::Zsh => join(home, ".zshrc"),
            Shell::Bash => if bashrc_exists {
                join(home, ".bashrc")
            } else {
                join(home, ".bash_profile")
            },
            Shell::Fish => join(home, ".config/fish/conf.d/wezel.fish"),
        }
    }

    /// The init script for this shell inside the wezel directory.
    pub fn init_script_path(self, wezel_dir: &str) -> (r: String)
        ensures
            r@ == join_path(wezel_dir@, init_script_name(self)),
    {
        match self {
            Shell::Zsh => join(wezel_dir, "init.zsh"),
            Shell::Bash => join(wezel_dir, "init.bash"),
            Shell::Fish => join(wezel_dir, "init.fish"),
        }
    }

    /// The marked block that sources the init script from an rc file.
    pub fn source_block(self, wezel_dir: &str) -> (r: String)
        ensures
            r@ == spec_source_block(self, join_path(wezel_dir@, init_script_name(self))),
    {
        let path = self.init_script_path(wezel_dir);
        let p = path.as_str();
        let mut out: Vec<char> = Vec::new();
        append_str(&mut out, "# >>> wezel pheromone >>>");
        match self {
            Shell::Fish => {
                append_str(&mut out, "\nif test -f \"");
                append_str(&mut out, p);
                append_str(&mut out, "\"\n    source \"");
                append_str(&mut out, p);
                append_str(&mut out, "\"\nend\n");
            },
            _ => {
                append_str(&mut out, "\n[[ -f \"");
                append_str(&mut out, p);
                append_str(&mut out, "\" ]] && source \"");
                append_str(&mut out, p);
                append_str(&mut out, "\"\n");
            },
        }
        append_str(&mut out, "# <<< wezel pheromone <<<");
        string_of(&out)
    }

    fn push_alias_line(self, out: &mut Vec<char>, tool: &str)
        ensures
            final(out)@ == old(out)@ + spec_alias_line(self, tool@),
    {
        match self {
            Shell::Fish => {
                append_str(out, "alias ");
                append_str(out, tool);
                append_str(out, " \"wezel exec -- ");
                append_str(out, tool);
                append_str(out, "\"");
            },
            _ => {
                append_str(out, "alias ");
                append_str(out, tool);
                append_str(out, "=\"wezel exec -- ");
                append_str(out, tool);
                append_str(out, "\"");
            },
        }
    }

    /// The alias that routes `tool` through `wezel exec`.
    pub fn alias_line(self, tool: &str) -> (r: String)
        ensures
            r@ == spec_alias_line(self, tool@),
    {
        let mut out: Vec<char> = Vec::new();
        self.push_alias_line(&mut out, tool);
        assert(out@ == Seq::<char>::empty() + spec_alias_line(self, tool@));
        string_of(&out)
    }

    /// The whole init script: the header, then one alias line per alias in
    /// ascending order.
    pub fn render_init_script(self, aliases: &AliasesFile) -> (r: String)
        ensures
            r@ == init_header() + alias_lines(self, aliases.names()),
    {
        let tools = aliases.to_vec();
        let mut out: Vec<char> = Vec::new();
        append_str(&mut out, "# Managed by wezel — do not edit, aliases are stored in aliases.toml\n");
        let mut i: usize = 0;
        while i < tools.len()
            invariant
                i <= tools@.len(),
                name_views(tools@) == aliases.names(),
                out@ == init_header() + alias_lines(self, name_views(tools@).subrange(0, i as int)),
            decreases tools.len() - i,
        {
            let ghost before = out@;
            self.push_alias_line(&mut out, tools[i].as_str());
            append_str(&mut out, "\n");
            let ghost sub = name_views(tools@).subrange(0, i + 1);
            assert(sub.drop_last() == name_views(tools@).subrange(0, i as int));
            assert(sub.last() == tools@[i as int]@);
            assert(out@ == init_header() + alias_lines(self, sub));
            i = i + 1;
        }
        assert(name_views(tools@).subrange(0, tools@.len() as int) == name_views(tools@));
        string_of(&out)
    }
}

/// Whether an rc file already carries the wezel source block.
pub fn has_shell_hook(rc_contents: &str) -> (r: bool)
    ensures
        r == contains(rc_contents@, source_marker()),
{
    let v = chars_of(rc_contents);
    contains_str(&v, "# >>> wezel pheromone >>>")
}

/// What installing the hook appends to an rc file holding `rc`: nothing
/// where it already carries the marker, else a blank line, the source
/// block and a newline.
pub open spec fn hook_append(sh: Shell, rc: Seq<char>, wezel_dir: Seq<char>) -> Option<Seq<char>> {
    if contains(rc, source_marker()) {
        None
    } else {
        Some("\n"@ + spec_source_block(sh, join_path(wezel_dir, init_script_name(sh))) + "\n"@)
    }
}

/// The rc file after installing the hook.
pub open spec fn rc_with_hook(sh: Shell, rc: Seq<char>, wezel_dir: Seq<char>) -> Seq<char> {
    match hook_append(sh, rc, wezel_dir) {
        Some(a) => rc + a,
        None => rc,
    }
}

/// What installing the shell hook appends to an rc file, if anything.
pub fn hook_to_append(sh: Shell, rc_contents: &str, wezel_dir: &str) -> (r: Option<String>)
    ensures
        match hook_append(sh, rc_contents@, wezel_dir@) {
            Some(a) => r matches Some(x) && x@ == a,
            None => r is None,
        },
{
    if has_shell_hook(rc_contents) {
        return None;
    }
    let block = sh.source_block(wezel_dir);
    let mut out: Vec<char> = Vec::new();
    append_str(&mut out, "\n");
    append_str(&mut out, block.as_str());
    append_str(&mut out, "\n");
    Some(string_of(&out))
}

/// Installing the shell hook twice changes the rc file no more than
/// installing it once, and after the first install the file carries the
/// marker.
pub proof fn law_shell_hook_idempotent(sh: Shell, rc: Seq<char>, wezel_dir: Seq<char>)
    ensures
        contains(rc_with_hook(sh, rc, wezel_dir), source_marker()),
        rc_with_hook(sh, rc_with_hook(sh, rc, wezel_dir), wezel_dir) == rc_with_hook(sh, rc, wezel_dir),
        hook_append(sh, rc_with_hook(sh, rc, wezel_dir), wezel_dir) is None,
{
    if !contains(rc, source_marker()) {
        let block = spec_source_block(sh, join_path(wezel_dir, init_script_name(sh)));
        let once = rc + ("\n"@ + block + "\n"@);
        let m = source_marker();
        reveal_strlit("\n");
        assert(block.subrange(0, m.len() as int) =~= m);
        let i: int = rc.len() as int + 1;
        assert(once.subrange(i, i + m.len() as int) =~= block.subrange(0, m.len() as int));
        assert(once.subrange(i, i + m.len() as int) == m);
    }
}

/// `p` occurs in `s` at `i`.
pub open spec fn occurs_at(s: Seq<char>, p: Seq<char>, i: int) -> bool {
    0 <= i && i + p.len() <= s.len() && s.subrange(i, i + p.len()) == p
}

spec fn flatten(ps: Seq<Seq<char>>) -> Seq<char>
    decreases ps.len(),
{
    if ps.len() == 0 {
        Seq::empty()
    } else {
        ps[0] + flatten(ps.drop_first())
    }
}

spec fn offset(ps: Seq<Seq<char>>, k: int) -> int
    decreases k,
{
    if k <= 0 || ps.len() == 0 {
        0
    } else {
        ps[0].len() + offset(ps.drop_first(), k - 1)
    }
}

/// An occurrence of `m` in `x + y`, where `x` ends in a character that `m`
/// does not hold, lies in `x` before that character or in `y`.
proof fn lemma_occurs_split(x: Seq<char>, y: Seq<char>, m: Seq<char>, i: int)
    requires
        x.len() > 0,
        !m.contains(x.last()),
        occurs_at(x + y, m, i),
    ensures
        occurs_at(x.drop_last(), m, i) || occurs_at(y, m, i - x.len()),
{
    let s = x + y;
    let l = x.len() as int;
    if i + m.len() <= l - 1 {
        assert(x.drop_last().subrange(i, i + m.len()) =~= s.subrange(i, i + m.len()));
    } else if i >= l {
        assert(y.subrange(i - l, i - l + m.len()) =~= s.subrange(i, i + m.len()));
    } else {
        assert(s.subrange(i, i + m.len())[l - 1 - i] == s[l - 1]);
        assert(m[l - 1 - i] == x.last());
    }
}

/// Where every piece ends in a character `m` does not hold and only piece
/// `k0` holds `m`, at its start, `m` occurs in the joined pieces only where
/// piece `k0` starts.
proof fn lemma_occurs_in_pieces(ps: Seq<Seq<char>>, m: Seq<char>, k0: int, i: int)
    requires
        m.len() > 0,
        forall|k: int| 0 <= k < ps.len() ==> #[trigger] ps[k].len() > 0 && !m.contains(ps[k].last()),
        forall|k: int, j: int| 0 <= k < ps.len() && #[trigger] occurs_at(ps[k].drop_last(), m, j) ==> k == k0 && j == 0,
        occurs_at(flatten(ps), m, i),
    ensures
        0 <= k0 < ps.len(),
        i == offset(ps, k0),
    decreases ps.len(),
{
    if ps.len() == 0 {
        assert(flatten(ps).len() == 0);
    } else {
        assert(ps[0].len() > 0);
        lemma_occurs_split(ps[0], flatten(ps.drop_first()), m, i);
        if occurs_at(ps[0].drop_last(), m, i) {
        } else {
            let rest = ps.drop_first();
            assert forall|k: int| 0 <= k < rest.len() implies #[trigger] rest[k].len() > 0 && !m.contains(rest[k].last()) by {
                assert(rest[k] == ps[k + 1]);
            }
            assert forall|k: int, j: int| 0 <= k < rest.len() && #[trigger] occurs_at(rest[k].drop_last(), m, j) implies k == k0 - 1 && j == 0 by {
                assert(rest[k] == ps[k + 1]);
            }
            lemma_occurs_in_pieces(rest, m, k0 - 1, i - ps[0].len());
        }
    }
}

proof fn lemma_occurs_contains(s: Seq<char>, m: Seq<char>, j: int)
    requires
        occurs_at(s, m, j),
    ensures
        contains(s, m),
{
    assert(s.subrange(j, j + m.len()) == m);
}

#[verifier::rlimit(100)]
#[verifier::spinoff_prover]
/// Where neither the rc file nor the init script's path holds the marker,
/// installing the hook leaves the marker in the rc file exactly once, where
/// the appended block starts.
pub proof fn law_shell_hook_marker_once(sh: Shell, rc: Seq<char>, wezel_dir: Seq<char>, i: int)
    requires
        !contains(rc, source_marker()),
        !contains(join_path(wezel_dir, init_script_name(sh)), source_marker()),
        occurs_at(rc_with_hook(sh, rc, wezel_dir), source_marker(), i),
    ensures
        i == rc.len() + 1,
{
    let m = source_marker();
    let e = source_end();
    let p = join_path(wezel_dir, init_script_name(sh));
    reveal_strlit("# >>> wezel pheromone >>>");
    reveal_strlit("# <<< wezel pheromone <<<");
    reveal_strlit("\n");
    reveal_strlit("\"");
    reveal_strlit("[[ -f \"");
    reveal_strlit(" ]] && source \"");
    reveal_strlit("if test -f \"");
    reveal_strlit("    source \"");
    reveal_strlit("end\n");
    reveal_strlit("\n[[ -f \"");
    reveal_strlit("\" ]] && source \"");
    reveal_strlit("\"\n");
    reveal_strlit("\nif test -f \"");
    reveal_strlit("\"\n    source \"");
    reveal_strlit("\"\nend\n");
    assert(!m.contains('\n'));
    assert(!m.contains('"'));
    let nl = "\n"@;
    let q = "\""@;
    let ps = match sh {
        Shell::Fish => seq![
            rc + nl,
            m + nl,
            "if test -f \""@,
            p + q,
            nl,
            "    source \""@,
            p + q,
            nl,
            "end\n"@,
            e + nl,
        ],
        _ => seq![rc + nl, m + nl, "[[ -f \""@, p + q, " ]] && source \""@, p + q, nl, e + nl],
    };
    reveal_with_fuel(flatten, 11);
    reveal_with_fuel(offset, 3);
    assert(flatten(ps) =~= rc_with_hook(sh, rc, wezel_dir));
    assert((rc + nl).drop_last() =~= rc);
    assert((m + nl).drop_last() =~= m);
    assert((p + q).drop_last() =~= p);
    assert((e + nl).drop_last() =~= e);
    assert(e[2] != m[2]);
    assert forall|k: int| 0 <= k < ps.len() implies #[trigger] ps[k].len() > 0 && !m.contains(ps[k].last()) by {
    }
    assert forall|k: int, j: int| 0 <= k < ps.len() && #[trigger] occurs_at(ps[k].drop_last(), m, j) implies k == 1 && j == 0 by {
        if ps[k].drop_last() == rc || ps[k].drop_last() == p {
            lemma_occurs_contains(ps[k].drop_last(), m, j);
        } else if ps[k].drop_last() == e {
            assert(e.subrange(j, j + m.len()) =~= e);
        }
    }
    lemma_occurs_in_pieces(ps, m, 1, i);
}

} // verus!
