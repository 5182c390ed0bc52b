//! Installing forager binaries from GitHub releases, pinned in `wezel.lock`.
use vstd::prelude::*;

use crate::text::{
    append_str, chars_of, contains, contains_str, ends_with, eq_str, has_suffix, string_of,
};

use sha2::Digest;

use crate::alias::{lemma_lex_irreflexive, lemma_lex_transitive, lemma_lex_trichotomy, lex_less, lex_lt};

verus! {

// ── Outside functions ────────────────────────────────────────────────────────

/// SHA-256 digest of `data`.
pub uninterp spec fn sha256_digest(data: Seq<u8>) -> Seq<u8>;

/// `sha2::Sha256::digest`: the 32-byte SHA-256 digest of `data`.
#[verifier::external_body]
fn sha256(data: &[u8]) -> (d: Vec<u8>)
    ensures
        d@ == sha256_digest(data@),
        d@.len() == 32,
{
    sha2::Sha256::digest(data).to_vec()
}

/// Lowercase hex digit for `n` (0 to 15).
pub open spec fn hex_digit(n: int) -> char {
    if n < 10 {
        crate::text::digit_char(n as nat)
    } else if n == 10 {
        'a'
    } else if n == 11 {
        'b'
    } else if n == 12 {
        'c'
    } else if n == 13 {
        'd'
    } else if n == 14 {
        'e'
    } else {
        'f'
    }
}

/// Lowercase hex encoding, two digits per byte, high nibble first.
pub open spec fn hex_lower(b: Seq<u8>) -> Seq<char>
    decreases b.len(),
{
    if b.len() == 0 {
        Seq::empty()
    } else {
        seq![hex_digit((b[0] / 16) as int), hex_digit((b[0] % 16) as int)] + hex_lower(b.drop_first())
    }
}

fn hex_char(n: u8) -> (c: char)
    requires
        n < 16,
    ensures
        c == hex_digit(n as int),
{
    if n == 0 { '0' } else if n == 1 { '1' } else if n == 2 { '2' } else if n == 3 { '3' }
    else if n == 4 { '4' } else if n == 5 { '5' } else if n == 6 { '6' } else if n == 7 { '7' }
    else if n == 8 { '8' } else if n == 9 { '9' } else if n == 10 { 'a' } else if n == 11 { 'b' }
    else if n == 12 { 'c' } else if n == 13 { 'd' } else if n == 14 { 'e' } else { 'f' }
}

/// Each byte as two lowercase hex digits, high nibble first (what
/// `hex::encode` gives).
fn hex_encode(data: &[u8]) -> (s: Vec<char>)
    ensures
        s@ == hex_lower(data@),
{
    let mut out: Vec<char> = Vec::new();
    let mut i: usize = 0;
    assert(data@.subrange(0, data@.len() as int) == data@);
    while i < data.len()
        invariant
            i <= data@.len(),
            hex_lower(data@) == out@ + hex_lower(data@.subrange(i as int, data@.len() as int)),
        decreases data.len() - i,
    {
        let ghost rest = data@.subrange(i as int, data@.len() as int);
        assert(rest.drop_first() == data@.subrange(i + 1, data@.len() as int));
        assert(rest[0] == data@[i as int]);
        let b = data[i];
        let ghost before = out@;
        out.push(hex_char(b / 16));
        out.push(hex_char(b % 16));
        assert(out@ == before + seq![hex_digit((b / 16) as int), hex_digit((b % 16) as int)]);
        assert(before + (seq![hex_digit((b / 16) as int), hex_digit((b % 16) as int)] + hex_lower(rest.drop_first()))
            == out@ + hex_lower(rest.drop_first()));
        i = i + 1;
    }
    assert(data@.subrange(data@.len() as int, data@.len() as int) == Seq::<u8>::empty());
    assert(out@ + Seq::<char>::empty() == out@);
    out
}

/// The lockfile entry for a downloaded archive: `sha256:<hex digest>`.
pub open spec fn lock_key_of(archive: Seq<u8>) -> Seq<char> {
    "sha256:"@ + hex_lower(sha256_digest(archive))
}

/// The key `wezel.lock` records for a downloaded archive.
pub fn archive_lock_key(archive: &[u8]) -> (k: String)
    ensures
        k@ == lock_key_of(archive@),
{
    let d = sha256(archive);
    let h = hex_encode(&d);
    let mut m: Vec<char> = Vec::new();
    append_str(&mut m, "sha256:");
    crate::text::append_chars(&mut m, &h);
    string_of(&m)
}

// ── Lockfile model ───────────────────────────────────────────────────────────

/// The lockfile format version this code writes.
pub const CURRENT_LOCK_VERSION: u32 = 1;

/// A forager pinned in `wezel.lock`: its repository, release tag, and the
/// archive key per target triple.
#[derive(Debug, Clone)]
pub struct LockedTool {
    pub github: String,
    pub tag: String,
    pub assets: Vec<(String, String)>,
}

/// `wezel.lock`: the pinned foragers, by name, in key order. The maps
/// are held as pairs with strictly ascending keys (`wf`): vstd specifies
/// `BTreeMap` only for keys that obey its model of `Ord`, which a `String`
/// key cannot be shown to.
#[derive(Debug, Clone)]
pub struct WezelLock {
    pub version: u32,
    pub foragers: Vec<(String, LockedTool)>,
}

/// Keys strictly ascending in code-point order, as a `BTreeMap` walks
/// them; hence distinct.
pub open spec fn keys_sorted<V>(m: Seq<(String, V)>) -> bool {
    forall|i: int, j: int| 0 <= i < j < m.len() ==> lex_lt(#[trigger] m[i].0@, #[trigger] m[j].0@)
}

impl WezelLock {
    /// The foragers, and each forager's assets, are in key order.
    pub open spec fn wf(&self) -> bool {
        &&& keys_sorted(self.foragers@)
        &&& forall|i: int| 0 <= i < self.foragers@.len() ==> keys_sorted(#[trigger] self.foragers@[i].1.assets@)
    }
}

/// Position at which `key` belongs in a key-ordered list.
fn insert_slot<V>(m: &Vec<(String, V)>, key: &str) -> (p: usize)
    requires
        keys_sorted(m@),
    ensures
        p <= m@.len(),
        forall|k: int| 0 <= k < p ==> lex_lt(#[trigger] m@[k].0@, key@),
        forall|k: int| p <= k < m@.len() ==> !lex_lt(#[trigger] m@[k].0@, key@),
{
    let x = chars_of(key);
    let n = m.len();
    let mut i: usize = 0;
    while i < n
        invariant
            n == m@.len(),
            keys_sorted(m@),
            x@ == key@,
            i <= n,
            forall|k: int| 0 <= k < i ==> lex_lt(#[trigger] m@[k].0@, key@),
        decreases n - i,
    {
        let cur = chars_of(m[i].0.as_str());
        if !lex_less(&cur, &x) {
            assert forall|k: int| i <= k < n implies !lex_lt(#[trigger] m@[k].0@, key@) by {
                if k > i && lex_lt(m@[k].0@, key@) {
                    assert(lex_lt(m@[i as int].0@, m@[k].0@));
                    lemma_lex_transitive(m@[i as int].0@, m@[k].0@, key@);
                }
            }
            return i;
        }
        i = i + 1;
    }
    i
}

proof fn lemma_sorted_distinct<V>(m: Seq<(String, V)>, i: int, j: int)
    requires
        keys_sorted(m),
        0 <= i < m.len(),
        0 <= j < m.len(),
        i != j,
    ensures
        m[i].0@ != m[j].0@,
{
    if i < j {
        assert(lex_lt(m[i].0@, m[j].0@));
        lemma_lex_irreflexive(m[i].0@);
    } else {
        assert(lex_lt(m[j].0@, m[i].0@));
        lemma_lex_irreflexive(m[j].0@);
    }
}

/// Inserting a new key at its place keeps the list in key order, binds the
/// key, and leaves every other key's binding as it was.
proof fn lemma_sorted_insert<V>(m: Seq<(String, V)>, p: int, kv: (String, V))
    requires
        keys_sorted(m),
        0 <= p <= m.len(),
        forall|k: int| 0 <= k < p ==> lex_lt(#[trigger] m[k].0@, kv.0@),
        forall|k: int| p <= k < m.len() ==> lex_lt(kv.0@, #[trigger] m[k].0@),
    ensures
        keys_sorted(m.insert(p, kv)),
        lookup(m.insert(p, kv), kv.0@) == Some(kv.1),
        forall|other: Seq<char>| other != kv.0@ ==> lookup(m.insert(p, kv), other) == lookup(m, other),
{
    let n = m.insert(p, kv);
    assert forall|i: int, j: int| 0 <= i < j < n.len() implies lex_lt(#[trigger] n[i].0@, #[trigger] n[j].0@) by {
        if i < p && j < p {
            assert(lex_lt(m[i].0@, m[j].0@));
        } else if i < p && j == p {
        } else if i < p {
            assert(lex_lt(m[i].0@, kv.0@));
            assert(lex_lt(kv.0@, m[j - 1].0@));
            lemma_lex_transitive(m[i].0@, kv.0@, m[j - 1].0@);
        } else if i == p {
            assert(n[j] == m[j - 1]);
        } else {
            assert(lex_lt(m[i - 1].0@, m[j - 1].0@));
        }
    }
    assert forall|k: int| 0 <= k < p implies n[k].0@ != kv.0@ by {
        assert(lex_lt(m[k].0@, kv.0@));
        lemma_lex_irreflexive(kv.0@);
    }
    lemma_lookup_first(n, kv.0@, p);
    assert forall|other: Seq<char>| other != kv.0@ implies lookup(n, other) == lookup(m, other) by {
        if exists|i: int| 0 <= i < m.len() && m[i].0@ == other {
            let i = choose|i: int| 0 <= i < m.len() && m[i].0@ == other;
            assert forall|k: int| 0 <= k < i implies m[k].0@ != other by {
                lemma_sorted_distinct(m, k, i);
            }
            lemma_lookup_first(m, other, i);
            let i2 = if i < p { i } else { i + 1 };
            assert(n[i2] == m[i]);
            assert forall|k: int| 0 <= k < i2 implies n[k].0@ != other by {
                if k < p {
                    assert(n[k] == m[k]);
                    lemma_sorted_distinct(m, k, i);
                } else if k > p {
                    assert(n[k] == m[k - 1]);
                    lemma_sorted_distinct(m, k - 1, i);
                }
            }
            lemma_lookup_first(n, other, i2);
        } else {
            lemma_lookup_first(m, other, m.len() as int);
            assert forall|k: int| 0 <= k < n.len() implies n[k].0@ != other by {
                if k < p {
                    assert(n[k] == m[k]);
                } else if k > p {
                    assert(n[k] == m[k - 1]);
                }
            }
            lemma_lookup_first(n, other, n.len() as int);
        }
    }
}

/// The value of the first pair keyed `key` in an association list.
pub open spec fn lookup<V>(m: Seq<(String, V)>, key: Seq<char>) -> Option<V>
    decreases m.len(),
{
    if m.len() == 0 {
        None
    } else if m[0].0@ == key {
        Some(m[0].1)
    } else {
        lookup(m.drop_first(), key)
    }
}

proof fn lemma_lookup_first<V>(m: Seq<(String, V)>, key: Seq<char>, i: int)
    requires
        0 <= i <= m.len(),
        i < m.len() ==> m[i].0@ == key,
        forall|k: int| 0 <= k < i ==> m[k].0@ != key,
    ensures
        lookup(m, key) == (if i < m.len() { Some(m[i].1) } else { None::<V> }),
    decreases m.len(),
{
    if m.len() > 0 && m[0].0@ != key {
        lemma_lookup_first(m.drop_first(), key, i - 1);
    }
}

/// Position of the first pair keyed `key`.
pub fn find_key<V>(m: &Vec<(String, V)>, key: &str) -> (r: Option<usize>)
    ensures
        match r {
            Some(i) => i < m@.len() && m@[i as int].0@ == key@ && (forall|k: int|
                0 <= k < i ==> m@[k].0@ != key@) && lookup(m@, key@) == Some(m@[i as int].1),
            None => (forall|k: int| 0 <= k < m@.len() ==> m@[k].0@ != key@) && lookup(m@, key@)
                is None,
        },
{
    let mut i: usize = 0;
    while i < m.len()
        invariant
            i <= m@.len(),
            forall|k: int| 0 <= k < i ==> m@[k].0@ != key@,
        decreases m.len() - i,
    {
        let kv = chars_of(m[i].0.as_str());
        if eq_str(&kv, key) {
            proof {
                lemma_lookup_first(m@, key@, i as int);
            }
            return Some(i);
        }
        i = i + 1;
    }
    proof {
        lemma_lookup_first(m@, key@, i as int);
    }
    None
}

/// Why a forager could not be installed.
#[derive(Debug)]
pub enum FetchError {
    /// No release asset for this target.
    NotAvailable { plugin: String, target: String },
    Other(String),
}

/// Resolves and installs forager binaries; `read_only` (used by lint)
/// installs only what the lockfile pins and never changes the lockfile.
pub struct ConfigFetcher {
    pub lock: WezelLock,
    pub read_only: bool,
}

impl ConfigFetcher {
    /// A fetcher that installs and pins as needed.
    pub fn new(lock: WezelLock) -> (f: Self)
        ensures
            f.lock == lock,
            !f.read_only,
    {
        ConfigFetcher { lock, read_only: false }
    }

    /// The lint flavour: refuses anything not pinned in the lockfile.
    pub fn read_only(lock: WezelLock) -> (f: Self)
        ensures
            f.lock == lock,
            f.read_only,
    {
        ConfigFetcher { lock, read_only: true }
    }

    /// Whether installing `name` may proceed: a read-only fetcher refuses
    /// foragers the lockfile does not pin.
    pub fn may_install(&self, name: &str) -> (ok: bool)
        ensures
            ok == !(self.read_only && lookup(self.lock.foragers@, name@) is None),
    {
        let found = find_key(&self.lock.foragers, name);
        !(self.read_only && found.is_none())
    }

    /// The release tag to install: the locked one, else the configured pin;
    /// `None` means the latest release.
    pub fn pinned_tag(&self, name: &str, config_tag: Option<String>) -> (t: Option<String>)
        ensures
            match lookup(self.lock.foragers@, name@) {
                Some(l) => t == Some(l.tag),
                None => t == config_tag,
            },
    {
        match find_key(&self.lock.foragers, name) {
            Some(i) => Some(self.lock.foragers[i].1.tag.clone()),
            None => config_tag,
        }
    }

    /// The archive key the lockfile expects for `name` on `target`.
    pub fn expected_key(&self, name: &str, target: &str) -> (k: Option<String>)
        ensures
            k == match lookup(self.lock.foragers@, name@) {
                Some(l) => lookup(l.assets@, target@),
                None => None,
            },
    {
        match find_key(&self.lock.foragers, name) {
            Some(i) => {
                let assets = &self.lock.foragers[i].1.assets;
                match find_key(assets, target) {
                    Some(j) => Some(assets[j].1.clone()),
                    None => None,
                }
            },
            None => None,
        }
    }

    /// Pins an installed archive: the forager's repository, tag and the
    /// target's archive key. A read-only fetcher changes nothing.
    pub fn record_install(&mut self, name: &str, github: String, tag: String, target: &str, key: String)
        requires
            old(self).lock.wf(),
        ensures
            final(self).lock.wf(),
            install_recorded(*old(self), *final(self), name@, github, tag, target@, key),
    {
        if self.read_only {
            return;
        }
        if self.lock.version == 0 {
            self.lock.version = CURRENT_LOCK_VERSION;
        }
        let ghost old_foragers = self.lock.foragers@;
        match find_key(&self.lock.foragers, name) {
            Some(i) => {
                let ghost len0 = self.lock.foragers@.len();
                let (k, mut entry) = self.lock.foragers.remove(i);
                assert(keys_sorted(old_foragers[i as int].1.assets@));
                entry.github = github;
                entry.tag = tag;
                set_key(&mut entry.assets, target, key);
                self.lock.foragers.insert(i, (k, entry));
                proof {
                    let nf = self.lock.foragers@;
                    assert(nf == old_foragers.update(i as int, (k, entry)));
                    lemma_update_keeps_lookup(old_foragers, i as int, (k, entry));
                    assert forall|a: int, b: int| 0 <= a < b < nf.len() implies lex_lt(#[trigger] nf[a].0@, #[trigger] nf[b].0@) by {
                        assert(lex_lt(old_foragers[a].0@, old_foragers[b].0@));
                    }
                    assert forall|q: int| 0 <= q < nf.len() implies keys_sorted(#[trigger] nf[q].1.assets@) by {
                        if q != i {
                            assert(nf[q] == old_foragers[q]);
                        }
                    }
                }
            },
            None => {
                let mut assets: Vec<(String, String)> = Vec::new();
                set_key(&mut assets, target, key);
                let p = insert_slot(&self.lock.foragers, name);
                let entry = (name.to_owned(), LockedTool { github, tag, assets });
                let ghost kv = entry;
                self.lock.foragers.insert(p, entry);
                proof {
                    assert forall|q: int| p <= q < old_foragers.len() implies lex_lt(name@, #[trigger] old_foragers[q].0@) by {
                        lemma_lex_trichotomy(old_foragers[q].0@, name@);
                    }
                    lemma_sorted_insert(old_foragers, p as int, kv);
                    let nf = self.lock.foragers@;
                    assert forall|q: int| 0 <= q < nf.len() implies keys_sorted(#[trigger] nf[q].1.assets@) by {
                        if q < p {
                            assert(nf[q] == old_foragers[q]);
                        } else if q > p {
                            assert(nf[q] == old_foragers[q - 1]);
                        }
                    }
                }
            },
        }
    }
}

proof fn lemma_update_keeps_lookup<V>(m: Seq<(String, V)>, i: int, kv: (String, V))
    requires
        0 <= i < m.len(),
        kv.0@ == m[i].0@,
        forall|k: int| 0 <= k < i ==> m[k].0@ != kv.0@,
    ensures
        lookup(m.update(i, kv), kv.0@) == Some(kv.1),
        forall|other: Seq<char>| other != kv.0@ ==> lookup(m.update(i, kv), other) == lookup(m, other),
    decreases m.len(),
{
    let n = m.update(i, kv);
    if i == 0 {
        assert(n.drop_first() == m.drop_first());
        assert forall|other: Seq<char>| other != kv.0@ implies lookup(n, other) == lookup(m, other) by {
            assert(lookup(n, other) == lookup(n.drop_first(), other));
            assert(lookup(m, other) == lookup(m.drop_first(), other));
        }
    } else {
        assert(n.drop_first() == m.drop_first().update(i - 1, kv));
        lemma_update_keeps_lookup(m.drop_first(), i - 1, kv);
        assert forall|other: Seq<char>| other != kv.0@ implies lookup(n, other) == lookup(m, other) by {
            if m[0].0@ != other {
                assert(lookup(n, other) == lookup(n.drop_first(), other));
                assert(lookup(m, other) == lookup(m.drop_first(), other));
            }
        }
    }
}

/// Binds `key` to `value` in a key-ordered list: replaces its binding, or
/// inserts one at its place.
pub fn set_key(m: &mut Vec<(String, String)>, key: &str, value: String)
    requires
        keys_sorted(old(m)@),
    ensures
        keys_sorted(final(m)@),
        lookup(final(m)@, key@) == Some(value),
        forall|other: Seq<char>| other != key@ ==> lookup(final(m)@, other) == lookup(old(m)@, other),
{
    let ghost before = m@;
    match find_key(m, key) {
        Some(i) => {
            let (k, _) = m.remove(i);
            m.insert(i, (k, value));
            proof {
                assert(m@ == before.update(i as int, (k, value)));
                lemma_update_keeps_lookup(before, i as int, (k, value));
                assert forall|a: int, b: int| 0 <= a < b < m@.len() implies lex_lt(#[trigger] m@[a].0@, #[trigger] m@[b].0@) by {
                    assert(lex_lt(before[a].0@, before[b].0@));
                }
            }
        },
        None => {
            let p = insert_slot(m, key);
            let k = key.to_owned();
            m.insert(p, (k, value));
            proof {
                assert forall|q: int| p <= q < before.len() implies lex_lt(key@, #[trigger] before[q].0@) by {
                    lemma_lex_trichotomy(before[q].0@, key@);
                }
                lemma_sorted_insert(before, p as int, (k, value));
            }
        },
    }
}

// ── Release assets ───────────────────────────────────────────────────────────

/// `s` with every `-` turned into `_`.
pub open spec fn underscored(s: Seq<char>) -> Seq<char> {
    s.map_values(|c: char| if c == '-' { '_' } else { c })
}

/// Whether a release asset is the archive of `binary` for `target`: its
/// name holds the binary name (or its crate-style `_` form) and the
/// target, and is not a `.sha256` checksum.
pub open spec fn asset_matches(asset: Seq<char>, binary: Seq<char>, target: Seq<char>) -> bool {
    (contains(asset, binary) || contains(asset, underscored(binary))) && contains(asset, target)
        && !ends_with(asset, ".sha256"@)
}

fn underscored_of(s: &[char]) -> (r: Vec<char>)
    ensures
        r@ == underscored(s@),
{
    let mut r: Vec<char> = Vec::new();
    let mut i: usize = 0;
    while i < s.len()
        invariant
            i <= s@.len(),
            r@ == underscored(s@.subrange(0, i as int)),
        decreases s.len() - i,
    {
        r.push(if s[i] == '-' { '_' } else { s[i] });
        assert(underscored(s@.subrange(0, i + 1)) == underscored(s@.subrange(0, i as int)).push(
            if s@[i as int] == '-' { '_' } else { s@[i as int] },
        ));
        i = i + 1;
    }
    assert(s@.subrange(0, s@.len() as int) == s@);
    r
}

fn contains_chars(v: &[char], p: &[char]) -> (r: bool)
    ensures
        r == contains(v@, p@),
{
    let ps = string_of(p);
    contains_str(v, ps.as_str())
}

/// Index of the first release asset that is the archive of `binary` for
/// `target`.
pub fn select_asset(asset_names: &[String], binary: &str, target: &str) -> (r: Option<usize>)
    ensures
        match r {
            Some(i) => i < asset_names@.len() && asset_matches(asset_names@[i as int]@, binary@, target@)
                && forall|k: int| 0 <= k < i ==> !asset_matches(asset_names@[k]@, binary@, target@),
            None => forall|k: int|
                0 <= k < asset_names@.len() ==> !asset_matches(asset_names@[k]@, binary@, target@),
        },
{
    let b = chars_of(binary);
    let u = underscored_of(&b);
    let sha_suffix = chars_of(".sha256");
    let mut i: usize = 0;
    while i < asset_names.len()
        invariant
            i <= asset_names@.len(),
            b@ == binary@,
            u@ == underscored(binary@),
            sha_suffix@ == ".sha256"@,
            forall|k: int| 0 <= k < i ==> !asset_matches(asset_names@[k]@, binary@, target@),
        decreases asset_names.len() - i,
    {
        let a = chars_of(asset_names[i].as_str());
        if (contains_chars(&a, &b) || contains_chars(&a, &u)) && contains_str(&a, target)
            && !has_suffix(&a, &sha_suffix) {
            return Some(i);
        }
        i = i + 1;
    }
    None
}

/// The GitHub API URL of a release: the latest one (`?per_page=1`, which
/// also covers prereleases) or the one tagged `tag`.
pub fn release_api_url(repo: &str, tag: Option<&str>) -> (r: String)
    ensures
        match tag {
            Some(t) => r@ == "https://api.github.com/repos/"@ + repo@ + "/releases/tags/"@ + t@,
            None => r@ == "https://api.github.com/repos/"@ + repo@ + "/releases?per_page=1"@,
        },
{
    let mut m: Vec<char> = Vec::new();
    append_str(&mut m, "https://api.github.com/repos/");
    append_str(&mut m, repo);
    match tag {
        Some(t) => {
            append_str(&mut m, "/releases/tags/");
            append_str(&mut m, t);
        },
        None => {
            append_str(&mut m, "/releases?per_page=1");
        },
    }
    string_of(&m)
}

/// A forager's `--schema` must report the name it was installed under.
pub fn schema_name_matches(reported: &str, forager: &str) -> (ok: bool)
    ensures
        ok == (reported@ == forager@),
{
    let r = chars_of(reported);
    eq_str(&r, forager)
}


pub open spec fn not_declared_fetch_message(name: Seq<char>) -> Seq<char> {
    "forager `"@ + name + "` not declared in `.wezel/config.toml`. Add `[tools.foragers."@ + name
        + "]` with `github = \"owner/repo\"`."@
}

pub open spec fn not_pinned_fetch_message(name: Seq<char>) -> Seq<char> {
    "forager `"@ + name
        + "` is not pinned in wezel.lock; cannot install in read-only mode (run `wezel experiment run` to refresh the lockfile)"@
}

pub open spec fn mismatch_message(name: Seq<char>, target: Seq<char>, expected: Seq<char>, got: Seq<char>) -> Seq<char> {
    "wezel.lock sha mismatch for forager-"@ + name + " ("@ + target + "): expected "@ + expected
        + ", got "@ + got + ". Delete .wezel/wezel.lock to refresh."@
}

impl ConfigFetcher {
    /// Whether installing `name` may start: the machine's target must be
    /// known, the forager declared, and, for a read-only fetcher, pinned in
    /// the lockfile; the first failed condition is the error.
    pub fn may_start(&self, name: &str, target: Option<&str>, declared: bool) -> (r: Result<(), FetchError>)
        ensures
            start_result(*self, name@, target.is_some(), declared, r),
    {
        if target.is_none() {
            let mut p: Vec<char> = Vec::new();
            append_str(&mut p, "forager-");
            append_str(&mut p, name);
            return Err(FetchError::NotAvailable { plugin: string_of(&p), target: "unknown".to_string() });
        }
        if !declared {
            let mut m: Vec<char> = Vec::new();
            append_str(&mut m, "forager `");
            append_str(&mut m, name);
            append_str(&mut m, "` not declared in `.wezel/config.toml`. Add `[tools.foragers.");
            append_str(&mut m, name);
            append_str(&mut m, "]` with `github = \"owner/repo\"`.");
            return Err(FetchError::Other(string_of(&m)));
        }
        if !self.may_install(name) {
            let mut m: Vec<char> = Vec::new();
            append_str(&mut m, "forager `");
            append_str(&mut m, name);
            append_str(
                &mut m,
                "` is not pinned in wezel.lock; cannot install in read-only mode (run `wezel experiment run` to refresh the lockfile)",
            );
            return Err(FetchError::Other(string_of(&m)));
        }
        Ok(())
    }

    /// The lockfile key of a downloaded archive, refused when the lockfile
    /// expects another key for this forager and target.
    pub fn check_archive(&self, name: &str, target: &str, archive: &[u8]) -> (r: Result<String, FetchError>)
        ensures
            archive_result(*self, name@, target@, archive@, r),
    {
        let key = archive_lock_key(archive);
        match self.expected_key(name, target) {
            Some(e) => {
                let ev = chars_of(e.as_str());
                if eq_str(&ev, key.as_str()) {
                    Ok(key)
                } else {
                    let mut m: Vec<char> = Vec::new();
                    append_str(&mut m, "wezel.lock sha mismatch for forager-");
                    append_str(&mut m, name);
                    append_str(&mut m, " (");
                    append_str(&mut m, target);
                    append_str(&mut m, "): expected ");
                    append_str(&mut m, e.as_str());
                    append_str(&mut m, ", got ");
                    append_str(&mut m, key.as_str());
                    append_str(&mut m, ". Delete .wezel/wezel.lock to refresh.");
                    Err(FetchError::Other(string_of(&m)))
                }
            },
            None => Ok(key),
        }
    }

    /// The archive key the lockfile expects for `name` on `target`.
    pub open spec fn expected_key_spec(&self, name: Seq<char>, target: Seq<char>) -> Option<String> {
        match lookup(self.lock.foragers@, name) {
            Some(l) => lookup(l.assets@, target),
            None => None,
        }
    }
}

/// What `may_start` gives for `name`: no target refuses it as not
/// available; an undeclared forager, and one a read-only fetcher finds
/// unpinned, are refused with their messages; otherwise it may start.
pub open spec fn start_result(f: ConfigFetcher, name: Seq<char>, has_target: bool, declared: bool, r: Result<(), FetchError>) -> bool {
    if !has_target {
        r matches Err(FetchError::NotAvailable { plugin, target: t }) && plugin@ == "forager-"@ + name
            && t@ == "unknown"@
    } else if !declared {
        r matches Err(FetchError::Other(m)) && m@ == not_declared_fetch_message(name)
    } else if f.read_only && lookup(f.lock.foragers@, name) is None {
        r matches Err(FetchError::Other(m)) && m@ == not_pinned_fetch_message(name)
    } else {
        r is Ok
    }
}

/// What `check_archive` gives: the archive's lockfile key, unless the
/// lockfile expects another one for this forager and target.
pub open spec fn archive_result(f: ConfigFetcher, name: Seq<char>, target: Seq<char>, archive: Seq<u8>, r: Result<String, FetchError>) -> bool {
    match f.expected_key_spec(name, target) {
        Some(e) => if e@ == lock_key_of(archive) {
            r matches Ok(k) && k@ == lock_key_of(archive)
        } else {
            r matches Err(FetchError::Other(m)) && m@ == mismatch_message(name, target, e@, lock_key_of(archive))
        },
        None => r matches Ok(k) && k@ == lock_key_of(archive),
    }
}

/// How pinning an installed archive changes fetcher `o` into `n`: a
/// read-only fetcher is unchanged; otherwise the lockfile gets a version,
/// the forager its repository, tag and this target's key, and nothing else
/// changes.
pub open spec fn install_recorded(o: ConfigFetcher, n: ConfigFetcher, name: Seq<char>, github: String, tag: String, target: Seq<char>, key: String) -> bool {
    &&& o.read_only ==> n == o
    &&& n.read_only == o.read_only
    &&& !o.read_only ==> {
        &&& n.lock.version == (if o.lock.version == 0 {
            CURRENT_LOCK_VERSION
        } else {
            o.lock.version
        })
        &&& lookup(n.lock.foragers@, name) matches Some(l) && l.github == github && l.tag == tag
            && lookup(l.assets@, target) == Some(key)
        &&& forall|t: Seq<char>|
            t != target ==> lookup(lookup(n.lock.foragers@, name)->0.assets@, t) == (match lookup(
                o.lock.foragers@,
                name,
            ) {
                Some(ol) => lookup(ol.assets@, t),
                None => None,
            })
        &&& forall|other: Seq<char>|
            other != name ==> lookup(n.lock.foragers@, other) == lookup(o.lock.foragers@, other)
    }
}

// ── Installing a forager ─────────────────────────────────────────────────────

/// Where installing a forager stands.
#[derive(Debug)]
pub enum FetchStage {
    Idle,
    /// The release to download is being resolved.
    Resolving { name: String, target: String, github: String },
    /// The release archive is being downloaded.
    Downloading { name: String, target: String, github: String, tag: String },
    /// The checked archive is being unpacked and its schema sidecar written.
    Installing { name: String, target: String, github: String, tag: String, key: String },
    Finished,
    Failed,
}

/// What the last action gave.
#[derive(Debug)]
pub enum FetchEvent {
    /// Install `name` for `target` (none when this machine has no known
    /// target), from the declared repository (none when undeclared), with
    /// the configured tag pin.
    Start { name: String, target: Option<String>, github: Option<String>, config_tag: Option<String> },
    /// The release resolved to this tag.
    Resolved { tag: String },
    /// The archive's bytes.
    Downloaded(Vec<u8>),
    /// The archive was unpacked and the sidecar written.
    Installed,
    /// The outside step failed with this message.
    Broken(String),
}

/// What the caller does next.
#[derive(Debug)]
pub enum FetchAction {
    /// Resolve a release of `github`: the `pin` tag, or the latest when none.
    Resolve { github: String, pin: Option<String> },
    /// Download the resolved release archive.
    Download,
    /// Unpack the archive and write the schema sidecar.
    Install,
    /// Installed at this tag.
    Done { tag: String },
    Fail(FetchError),
    /// The event does not belong where the install stands.
    Ignore,
}

/// One move of an install: from fetcher `o` at `stage` on `event` to
/// fetcher `n`, with the next stage and action `r`.
pub open spec fn fetch_move(o: ConfigFetcher, stage: FetchStage, event: FetchEvent, n: ConfigFetcher, r: (FetchStage, FetchAction)) -> bool {
    match (stage, event) {
        (FetchStage::Idle, FetchEvent::Start { name, target, github, config_tag }) => {
            let ok = start_result(o, name@, target is Some, github is Some, Ok(()));
            &&& n == o
            &&& ok ==> (r.0 matches FetchStage::Resolving { name: nm, target: t, github: g }
                && nm == name && Some(t) == target && Some(g) == github)
            &&& ok ==> (r.1 matches FetchAction::Resolve { github: g, pin } && Some(g) == github
                && pin == match lookup(o.lock.foragers@, name@) {
                    Some(l) => Some(l.tag),
                    None => config_tag,
                })
            &&& !ok ==> r.0 is Failed
            &&& !ok ==> (r.1 matches FetchAction::Fail(e) && start_result(
                o,
                name@,
                target is Some,
                github is Some,
                Err(e),
            ))
        },
        (FetchStage::Resolving { name, target, github }, FetchEvent::Resolved { tag }) => {
            &&& n == o
            &&& r.0 == (FetchStage::Downloading { name, target, github, tag })
            &&& r.1 is Download
        },
        (FetchStage::Downloading { name, target, github, tag }, FetchEvent::Downloaded(bytes)) => {
            &&& n == o
            &&& match r.1 {
                FetchAction::Install => r.0 matches FetchStage::Installing {
                    name: nm,
                    target: t,
                    github: g,
                    tag: tg,
                    key,
                } && nm == name && t == target && g == github && tg == tag && archive_result(
                    o,
                    name@,
                    target@,
                    bytes@,
                    Ok(key),
                ),
                FetchAction::Fail(e) => r.0 is Failed && archive_result(
                    o,
                    name@,
                    target@,
                    bytes@,
                    Err(e),
                ),
                _ => false,
            }
        },
        (FetchStage::Installing { name, target, github, tag, key }, FetchEvent::Installed) => {
            &&& install_recorded(o, n, name@, github, tag, target@, key)
            &&& r.0 is Finished
            &&& r.1 matches FetchAction::Done { tag: t } && t@ == tag@
        },
        (FetchStage::Resolving { .. }, FetchEvent::Broken(m)) | (
            FetchStage::Downloading { .. },
            FetchEvent::Broken(m),
        ) | (FetchStage::Installing { .. }, FetchEvent::Broken(m)) => {
            &&& n == o
            &&& r.0 is Failed
            &&& r.1 == FetchAction::Fail(FetchError::Other(m))
        },
        (st, _) => n == o && r.0 == st && r.1 is Ignore,
    }
}

impl ConfigFetcher {
    /// The next move of an install. Checks run before the download (target,
    /// declaration, read-only pin), the archive is checked against the
    /// lockfile before it is installed, and it is pinned only once
    /// installed; the release tag is the locked one, else the configured.
    pub fn next_fetch(&mut self, stage: FetchStage, event: FetchEvent) -> (r: (FetchStage, FetchAction))
        requires
            old(self).lock.wf(),
        ensures
            final(self).lock.wf(),
            fetch_move(*old(self), stage, event, *final(self), r),
    {
        match (stage, event) {
            (FetchStage::Idle, FetchEvent::Start { name, target, github, config_tag }) => {
                let target_str: Option<&str> = match &target {
                    Some(t) => Some(t.as_str()),
                    None => None,
                };
                let checked = self.may_start(name.as_str(), target_str, github.is_some());
                match checked {
                    Err(e) => (FetchStage::Failed, FetchAction::Fail(e)),
                    Ok(()) => {
                        let tag = self.pinned_tag(name.as_str(), config_tag);
                        let (target, github) = match (target, github) {
                            (Some(t), Some(g)) => (t, g),
                            _ => {
                                return (FetchStage::Failed, FetchAction::Ignore);
                            },
                        };
                        let g = github.clone();
                        (FetchStage::Resolving { name, target, github }, FetchAction::Resolve { github: g, pin: tag })
                    },
                }
            },
            (FetchStage::Resolving { name, target, github }, FetchEvent::Resolved { tag }) => (
                FetchStage::Downloading { name, target, github, tag },
                FetchAction::Download,
            ),
            (FetchStage::Downloading { name, target, github, tag }, FetchEvent::Downloaded(bytes)) => {
                match self.check_archive(name.as_str(), target.as_str(), bytes.as_slice()) {
                    Ok(key) => (FetchStage::Installing { name, target, github, tag, key }, FetchAction::Install),
                    Err(e) => (FetchStage::Failed, FetchAction::Fail(e)),
                }
            },
            (FetchStage::Installing { name, target, github, tag, key }, FetchEvent::Installed) => {
                let done = tag.clone();
                self.record_install(name.as_str(), github, tag, target.as_str(), key);
                (FetchStage::Finished, FetchAction::Done { tag: done })
            },
            (FetchStage::Resolving { .. }, FetchEvent::Broken(m))
            | (FetchStage::Downloading { .. }, FetchEvent::Broken(m))
            | (FetchStage::Installing { .. }, FetchEvent::Broken(m)) => (
                FetchStage::Failed,
                FetchAction::Fail(FetchError::Other(m)),
            ),
            (st, _) => (st, FetchAction::Ignore),
        }
    }
}

/// An install run: fetcher `fs[k]` at stage `stages[k]` met `events[k]`
/// and moved to `fs[k + 1]` at `stages[k + 1]`, asking for `acts[k]`.
pub open spec fn fetch_run(
    fs: Seq<ConfigFetcher>,
    stages: Seq<FetchStage>,
    events: Seq<FetchEvent>,
    acts: Seq<FetchAction>,
) -> bool {
    &&& fs.len() == events.len() + 1
    &&& stages.len() == events.len() + 1
    &&& acts.len() == events.len()
    &&& forall|k: int|
        #![trigger events[k]]
        0 <= k < events.len() ==> fetch_move(fs[k], stages[k], events[k], fs[k + 1], (stages[k + 1], acts[k]))
}

proof fn lemma_failed_stays(
    fs: Seq<ConfigFetcher>,
    stages: Seq<FetchStage>,
    events: Seq<FetchEvent>,
    acts: Seq<FetchAction>,
    k: int,
    j: int,
)
    requires
        fetch_run(fs, stages, events, acts),
        0 <= k <= j <= events.len(),
        stages[k] is Failed,
    ensures
        stages[j] is Failed,
        fs[j] == fs[k],
        j < events.len() ==> acts[j] is Ignore,
    decreases j - k,
{
    if j > k {
        lemma_failed_stays(fs, stages, events, acts, k, j - 1);
        let q = j - 1;
        assert(fetch_move(fs[q], stages[q], events[q], fs[q + 1], (stages[q + 1], acts[q])));
    }
    if j < events.len() {
        assert(fetch_move(fs[j], stages[j], events[j], fs[j + 1], (stages[j + 1], acts[j])));
    }
}

/// A read-only fetcher never changes, whatever an install run meets: its
/// lockfile stays as it was read.
pub proof fn law_read_only_run_keeps_lock(
    fs: Seq<ConfigFetcher>,
    stages: Seq<FetchStage>,
    events: Seq<FetchEvent>,
    acts: Seq<FetchAction>,
    k: int,
)
    requires
        fetch_run(fs, stages, events, acts),
        fs[0].read_only,
        0 <= k < fs.len(),
    ensures
        fs[k] == fs[0],
    decreases k,
{
    if k > 0 {
        law_read_only_run_keeps_lock(fs, stages, events, acts, k - 1);
        let q = k - 1;
        assert(fetch_move(fs[q], stages[q], events[q], fs[q + 1], (stages[q + 1], acts[q])));
    }
}

/// An install refused at the start (no target, an undeclared forager, or
/// one a read-only fetcher finds unpinned) fails at once; nothing is
/// resolved, downloaded, installed or pinned afterwards.
pub proof fn law_refused_start_installs_nothing(
    fs: Seq<ConfigFetcher>,
    stages: Seq<FetchStage>,
    events: Seq<FetchEvent>,
    acts: Seq<FetchAction>,
    k: int,
)
    requires
        fetch_run(fs, stages, events, acts),
        events.len() > 0,
        stages[0] is Idle,
        events[0] matches FetchEvent::Start { name, target, github, .. } && !start_result(
            fs[0],
            name@,
            target is Some,
            github is Some,
            Ok(()),
        ),
        0 <= k < events.len(),
    ensures
        acts[0] is Fail,
        k > 0 ==> acts[k] is Ignore,
        fs[k] == fs[0],
{
    let z: int = 0;
    assert(fetch_move(fs[z], stages[z], events[z], fs[z + 1], (stages[z + 1], acts[z])));
    lemma_failed_stays(fs, stages, events, acts, 1, k + 1);
    if k > 0 {
        lemma_failed_stays(fs, stages, events, acts, 1, k);
    }
}

/// An archive whose key differs from the one the lockfile pins for its
/// target fails the install there; nothing is installed or pinned after.
pub proof fn law_mismatch_installs_nothing(
    fs: Seq<ConfigFetcher>,
    stages: Seq<FetchStage>,
    events: Seq<FetchEvent>,
    acts: Seq<FetchAction>,
    k: int,
    j: int,
)
    requires
        fetch_run(fs, stages, events, acts),
        0 <= k < j < events.len(),
        stages[k] matches FetchStage::Downloading { name, target, .. } && events[k] matches FetchEvent::Downloaded(
            bytes,
        ) && fs[k].expected_key_spec(name@, target@) matches Some(e) && e@ != lock_key_of(bytes@),
    ensures
        acts[k] is Fail,
        acts[j] is Ignore,
        fs[j] == fs[k],
        fs[k + 1] == fs[k],
{
    assert(fetch_move(fs[k], stages[k], events[k], fs[k + 1], (stages[k + 1], acts[k])));
    lemma_failed_stays(fs, stages, events, acts, k + 1, j);
}

} // verus!
