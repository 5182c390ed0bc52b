//! Project identity derived from git remote URLs.
use vstd::prelude::*;

use crate::text::{
    chars_of, find_char, index_of, is_ws, lemma_index_of_bounds,
    lemma_replace_first, replace_first, replace_first_str, slice_of, starts_with, string_of,
    strip_prefix, strip_prefix_str, strip_suffix, strip_suffix_str, trim, trim_end,
    trim_end_matches, trim_end_matches_str, trim_start, trim_start_matches,
    trim_start_matches_str, trimmed,
};

verus! {

// ── Specifications ───────────────────────────────────────────────────────────

/// Canonical upstream identity: protocol, `git@` and `.git` stripped so that
/// SSH and HTTPS remotes of one repository agree.
pub open spec fn spec_normalize_upstream(url: Seq<char>) -> Seq<char> {
    let s0 = trim(url);
    let s1 = trim_start_matches(
        trim_start_matches(
            trim_start_matches(trim_start_matches(s0, "https://"@), "http://"@),
            "ssh://"@,
        ),
        "git://"@,
    );
    let s2 = match strip_prefix(s1, "git@"@) {
        Some(rest) => replace_first(rest, ':', "/"@),
        None => s1,
    };
    trim_end_matches(s2, ".git"@)
}

/// `s` without the first of the URL schemes that prefixes it (at most one).
pub open spec fn strip_one_scheme(s: Seq<char>) -> Seq<char> {
    match strip_prefix(s, "https://"@) {
        Some(r) => r,
        None => match strip_prefix(s, "http://"@) {
            Some(r) => r,
            None => match strip_prefix(s, "ssh://"@) {
                Some(r) => r,
                None => match strip_prefix(s, "git://"@) {
                    Some(r) => r,
                    None => s,
                },
            },
        },
    }
}

/// `github.com` owner and repository named by an upstream URL.
pub open spec fn spec_github_owner_repo(upstream: Seq<char>) -> Option<(Seq<char>, Seq<char>)> {
    let t = trim_end_matches(trim(upstream), "/"@);
    let ns = strip_one_scheme(t);
    let norm = match strip_prefix(ns, "git@"@) {
        Some(rest) => replace_first(rest, ':', "/"@),
        None => ns,
    };
    match strip_prefix(norm, "github.com/"@) {
        None => None,
        Some(hr) => {
            let i = index_of(hr, '/');
            if i >= hr.len() {
                None
            } else {
                let owner = trim(hr.subrange(0, i));
                let rest = hr.subrange(i + 1, hr.len() as int);
                let repo_raw = trim(rest.subrange(0, index_of(rest, '/')));
                if owner.len() == 0 || repo_raw.len() == 0 {
                    None
                } else {
                    let repo = trim(
                        match strip_suffix(repo_raw, ".git"@) {
                            Some(r) => r,
                            None => repo_raw,
                        },
                    );
                    if repo.len() == 0 {
                        None
                    } else {
                        Some((owner, repo))
                    }
                }
            }
        },
    }
}

/// The part of `s` after its last `c` (all of `s` when there is none).
pub open spec fn after_last(s: Seq<char>, c: char) -> Seq<char>
    decreases s.len(),
{
    if s.len() == 0 {
        s
    } else if s.last() == c {
        Seq::empty()
    } else {
        after_last(s.drop_last(), c).push(s.last())
    }
}

/// The first seven characters of a commit SHA (all of it when shorter).
pub open spec fn spec_short_sha(sha: Seq<char>) -> Seq<char> {
    if sha.len() <= 7 {
        sha
    } else {
        sha.subrange(0, 7)
    }
}

// ── Executable ───────────────────────────────────────────────────────────────

/// Strip protocol, `git@` and the `.git` suffix so SSH and HTTPS remotes
/// resolve to the same identity.
pub fn normalize_upstream(url: &str) -> (r: String)
    ensures
        r@ == spec_normalize_upstream(url@),
{
    let v = chars_of(url);
    let s0 = trimmed(&v);
    let a = trim_start_matches_str(&s0, "https://");
    let b = trim_start_matches_str(&a, "http://");
    let c = trim_start_matches_str(&b, "ssh://");
    let s1 = trim_start_matches_str(&c, "git://");
    let s2 = match strip_prefix_str(&s1, "git@") {
        Some(rest) => replace_first_str(&rest, ':', "/"),
        None => s1,
    };
    let out = trim_end_matches_str(&s2, ".git");
    string_of(&out)
}

fn strip_one_scheme_chars(s: &[char]) -> (r: Vec<char>)
    ensures
        r@ == strip_one_scheme(s@),
{
    match strip_prefix_str(s, "https://") {
        Some(r) => r,
        None => match strip_prefix_str(s, "http://") {
            Some(r) => r,
            None => match strip_prefix_str(s, "ssh://") {
                Some(r) => r,
                None => match strip_prefix_str(s, "git://") {
                    Some(r) => r,
                    None => slice_of(s, 0, s.len()),
                },
            },
        },
    }
}

/// Owner and repository of a `github.com` upstream, if it names one.
pub fn github_owner_repo(upstream: &str) -> (r: Option<(String, String)>)
    ensures
        r is None <==> spec_github_owner_repo(upstream@) is None,
        r matches Some(p) ==> spec_github_owner_repo(upstream@) == Some((p.0@, p.1@)),
{
    let v = chars_of(upstream);
    let t0 = trimmed(&v);
    let t = trim_end_matches_str(&t0, "/");
    let ns = strip_one_scheme_chars(&t);
    let norm = match strip_prefix_str(&ns, "git@") {
        Some(rest) => replace_first_str(&rest, ':', "/"),
        None => ns,
    };
    let hr = match strip_prefix_str(&norm, "github.com/") {
        None => {
            return None;
        },
        Some(hr) => hr,
    };
    let i = find_char(&hr, '/');
    if i >= hr.len() {
        return None;
    }
    let owner_raw = slice_of(&hr, 0, i);
    let owner = trimmed(&owner_raw);
    let rest = slice_of(&hr, i + 1, hr.len());
    proof {
        lemma_index_of_bounds(rest@, '/');
    }
    let j = find_char(&rest, '/');
    let repo_part = slice_of(&rest, 0, j);
    let repo_raw = trimmed(&repo_part);
    if owner.len() == 0 || repo_raw.len() == 0 {
        return None;
    }
    let stripped = match strip_suffix_str(&repo_raw, ".git") {
        Some(r) => r,
        None => repo_raw,
    };
    let repo = trimmed(&stripped);
    if repo.len() == 0 {
        return None;
    }
    Some((string_of(&owner), string_of(&repo)))
}

/// Cache key for a GitHub commit lookup: `owner/repo:sha`.
pub fn github_cache_key(owner: &str, repo: &str, sha: &str) -> (r: String)
    ensures
        r@ == owner@ + "/"@ + repo@ + ":"@ + sha@,
{
    let mut out = chars_of(owner);
    let parts = [chars_of("/"), chars_of(repo), chars_of(":"), chars_of(sha)];
    let ghost acc = owner@;
    let mut p: usize = 0;
    while p < 4
        invariant
            p <= 4,
            parts@.len() == 4,
            parts@[0]@ == "/"@,
            parts@[1]@ == repo@,
            parts@[2]@ == ":"@,
            parts@[3]@ == sha@,
            out@ == (if p == 0 {
                owner@
            } else if p == 1 {
                owner@ + "/"@
            } else if p == 2 {
                owner@ + "/"@ + repo@
            } else if p == 3 {
                owner@ + "/"@ + repo@ + ":"@
            } else {
                owner@ + "/"@ + repo@ + ":"@ + sha@
            }),
        decreases 4 - p,
    {
        let part = &parts[p];
        let mut k: usize = 0;
        let ghost start = out@;
        while k < part.len()
            invariant
                k <= part@.len(),
                out@ == start + part@.subrange(0, k as int),
            decreases part.len() - k,
        {
            out.push(part[k]);
            k = k + 1;
        }
        assert(part@.subrange(0, part@.len() as int) == part@);
        p = p + 1;
    }
    string_of(&out)
}

/// The name a project gets from its upstream: the last path segment.
pub fn project_name_from_upstream(upstream: &str) -> (r: String)
    ensures
        r@ == after_last(upstream@, '/'),
{
    let v = chars_of(upstream);
    let n = v.len();
    let mut i: usize = n;
    let mut tail: Vec<char> = Vec::new();
    assert(v@.subrange(0, n as int) == v@);
    while i > 0 && v[i - 1] != '/'
        invariant
            n == v@.len(),
            i <= n,
            after_last(v@, '/') == after_last(v@.subrange(0, i as int), '/') + v@.subrange(
                i as int,
                n as int,
            ),
        decreases i,
    {
        let ghost pre = v@.subrange(0, i as int);
        assert(pre.drop_last() == v@.subrange(0, i - 1));
        assert(after_last(pre, '/') == after_last(pre.drop_last(), '/').push(pre.last()));
        assert(v@.subrange(i - 1, n as int) == seq![v@[i - 1]] + v@.subrange(i as int, n as int));
        i = i - 1;
    }
    assert(after_last(v@.subrange(0, i as int), '/') == Seq::<char>::empty());
    let out = slice_of(&v, i, n);
    string_of(&out)
}

/// The first seven characters of a commit SHA.
pub fn short_sha(sha: &str) -> (r: String)
    ensures
        r@ == spec_short_sha(sha@),
{
    let v = chars_of(sha);
    if v.len() <= 7 {
        string_of(&v)
    } else {
        let s = slice_of(&v, 0, 7);
        string_of(&s)
    }
}

// ── Laws ─────────────────────────────────────────────────────────────────────

proof fn lemma_trim_identity(s: Seq<char>)
    requires
        s.len() > 0,
        !is_ws(s[0]),
        !is_ws(s.last()),
    ensures
        trim(s) == s,
{
    assert(trim_start(s) == s);
    assert(trim_end(s) == s);
}

proof fn lemma_concat_prefix(p: Seq<char>, x: Seq<char>)
    ensures
        starts_with(p + x, p),
        (p + x).subrange(p.len() as int, (p + x).len() as int) == x,
{
    assert((p + x).subrange(0, p.len() as int) == p);
    assert((p + x).subrange(p.len() as int, (p + x).len() as int) == x);
}

proof fn lemma_not_prefix_first(s: Seq<char>, p: Seq<char>)
    requires
        s.len() > 0,
        p.len() > 0,
        s[0] != p[0],
    ensures
        !starts_with(s, p),
{
    if starts_with(s, p) {
        assert(s.subrange(0, p.len() as int)[0] == p[0]);
    }
}

/// SSH and HTTPS remotes of one repository resolve to the same identity:
/// `git@HOST:PATH` and `https://HOST/PATH` normalize alike, provided the host
/// holds no `:`, the pair carries no surrounding whitespace and `HOST/PATH`
/// does not itself begin with another scheme or `git@`.
pub proof fn law_ssh_and_https_remotes_agree(host: Seq<char>, path: Seq<char>)
    requires
        host.len() > 0,
        !is_ws(host[0]),
        path.len() > 0,
        !is_ws(path.last()),
        forall|k: int| 0 <= k < host.len() ==> host[k] != ':',
        !starts_with(host + "/"@ + path, "https://"@),
        !starts_with(host + "/"@ + path, "http://"@),
        !starts_with(host + "/"@ + path, "ssh://"@),
        !starts_with(host + "/"@ + path, "git://"@),
        !starts_with(host + "/"@ + path, "git@"@),
    ensures
        spec_normalize_upstream("git@"@ + host + ":"@ + path) == spec_normalize_upstream(
            "https://"@ + host + "/"@ + path,
        ),
{
    reveal_strlit("git@");
    reveal_strlit("https://");
    reveal_strlit("http://");
    reveal_strlit("ssh://");
    reveal_strlit("git://");
    reveal_strlit(":");
    reveal_strlit("/");
    let hp = host + "/"@ + path;
    // The SSH form.
    let ssh = "git@"@ + host + ":"@ + path;
    assert(ssh == "git@"@ + (host + ":"@ + path));
    assert(ssh.len() > 0 && ssh[0] == 'g');
    assert(ssh.last() == path.last());
    lemma_trim_identity(ssh);
    lemma_not_prefix_first(ssh, "https://"@);
    lemma_not_prefix_first(ssh, "http://"@);
    lemma_not_prefix_first(ssh, "ssh://"@);
    assert(!starts_with(ssh, "git://"@)) by {
        if starts_with(ssh, "git://"@) {
            assert(ssh.subrange(0, 6)[3] == '@');
        }
    }
    lemma_concat_prefix("git@"@, host + ":"@ + path);
    let hcp = host + ":"@ + path;
    assert forall|k: int| 0 <= k < host.len() implies hcp[k] != ':' by {
        assert(hcp[k] == host[k]);
    }
    assert(hcp[host.len() as int] == ':');
    lemma_replace_first(hcp, ':', "/"@, host.len() as int);
    assert(hcp.subrange(0, host.len() as int) == host);
    assert(hcp.subrange(host.len() as int + 1, hcp.len() as int) == path);
    assert(replace_first(hcp, ':', "/"@) == hp);
    // The HTTPS form.
    let https = "https://"@ + hp;
    assert(https == "https://"@ + host + "/"@ + path);
    assert(https.last() == path.last());
    lemma_trim_identity(https);
    lemma_concat_prefix("https://"@, hp);
    assert(trim_start_matches(hp, "https://"@) == hp);
    assert(trim_start_matches(https, "https://"@) == hp);
}

proof fn lemma_no_match_kept(s: Seq<char>, p: Seq<char>)
    requires
        p.len() > 0,
        !starts_with(s, p),
    ensures
        trim_start_matches(s, p) == s,
{
}

proof fn lemma_prefix_dropped(p: Seq<char>, u: Seq<char>)
    requires
        p.len() > 0,
        !starts_with(u, p),
    ensures
        trim_start_matches(p + u, p) == u,
{
    lemma_concat_prefix(p, u);
    lemma_no_match_kept(u, p);
}

/// The URL scheme of a remote does not change its identity: for each of
/// `https://`, `http://`, `ssh://` and `git://`, a remote written with the
/// scheme normalizes as the same remote without it (which carries no
/// surrounding whitespace and no scheme of its own).
pub proof fn law_scheme_does_not_change_identity(scheme: Seq<char>, u: Seq<char>)
    requires
        scheme == "https://"@ || scheme == "http://"@ || scheme == "ssh://"@ || scheme == "git://"@,
        u.len() > 0,
        !is_ws(u[0]),
        !is_ws(u.last()),
        !starts_with(u, "https://"@),
        !starts_with(u, "http://"@),
        !starts_with(u, "ssh://"@),
        !starts_with(u, "git://"@),
    ensures
        spec_normalize_upstream(scheme + u) == spec_normalize_upstream(u),
{
    reveal_strlit("https://");
    reveal_strlit("http://");
    reveal_strlit("ssh://");
    reveal_strlit("git://");
    let su = scheme + u;
    assert(su[0] == scheme[0]);
    assert(su.last() == u.last());
    lemma_trim_identity(su);
    lemma_trim_identity(u);
    lemma_no_match_kept(u, "https://"@);
    lemma_no_match_kept(u, "http://"@);
    lemma_no_match_kept(u, "ssh://"@);
    lemma_no_match_kept(u, "git://"@);
    if scheme == "https://"@ {
        lemma_prefix_dropped(scheme, u);
    } else if scheme == "http://"@ {
        assert(!starts_with(su, "https://"@)) by {
            if starts_with(su, "https://"@) {
                assert(su.subrange(0, 8)[4] == su[4]);
            }
        }
        lemma_no_match_kept(su, "https://"@);
        lemma_prefix_dropped(scheme, u);
    } else if scheme == "ssh://"@ {
        lemma_not_prefix_first(su, "https://"@);
        lemma_not_prefix_first(su, "http://"@);
        lemma_no_match_kept(su, "https://"@);
        lemma_no_match_kept(su, "http://"@);
        lemma_prefix_dropped(scheme, u);
    } else {
        lemma_not_prefix_first(su, "https://"@);
        lemma_not_prefix_first(su, "http://"@);
        lemma_not_prefix_first(su, "ssh://"@);
        lemma_no_match_kept(su, "https://"@);
        lemma_no_match_kept(su, "http://"@);
        lemma_no_match_kept(su, "ssh://"@);
        lemma_prefix_dropped(scheme, u);
    }
}

} // verus!
