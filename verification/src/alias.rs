//! The set of tools the shell hook aliases through `wezel exec`.
use vstd::prelude::*;

use crate::text::{append_str, chars_of, string_of};

verus! {

/// Strict lexicographic order on code points, the order in which a
/// `BTreeSet<String>` walks its elements.
pub open spec fn lex_lt(a: Seq<char>, b: Seq<char>) -> bool
    decreases a.len(),
{
    if a.len() == 0 {
        b.len() > 0
    } else if b.len() == 0 {
        false
    } else if a[0] != b[0] {
        (a[0] as int) < (b[0] as int)
    } else {
        lex_lt(a.drop_first(), b.drop_first())
    }
}

/// Strictly increasing, hence free of duplicates.
pub open spec fn strictly_sorted(s: Seq<Seq<char>>) -> bool {
    forall|i: int, j: int| 0 <= i < j < s.len() ==> lex_lt(#[trigger] s[i], #[trigger] s[j])
}

pub proof fn lemma_lex_irreflexive(a: Seq<char>)
    ensures
        !lex_lt(a, a),
    decreases a.len(),
{
    if a.len() > 0 {
        lemma_lex_irreflexive(a.drop_first());
    }
}

pub proof fn lemma_lex_trichotomy(a: Seq<char>, b: Seq<char>)
    ensures
        a == b || lex_lt(a, b) || lex_lt(b, a),
    decreases a.len(),
{
    if a.len() > 0 && b.len() > 0 && a[0] == b[0] {
        lemma_lex_trichotomy(a.drop_first(), b.drop_first());
        if a.drop_first() == b.drop_first() {
            assert(a == seq![a[0]] + a.drop_first());
            assert(b == seq![b[0]] + b.drop_first());
        }
    } else if a.len() > 0 && b.len() > 0 {
        // `char` values with equal code points are equal.
        assert((a[0] as int) != (b[0] as int));
    } else if a.len() == 0 && b.len() == 0 {
        assert(a == b);
    }
}

pub proof fn lemma_lex_asymmetric(a: Seq<char>, b: Seq<char>)
    requires
        lex_lt(a, b),
    ensures
        !lex_lt(b, a),
    decreases a.len(),
{
    if a.len() > 0 && b.len() > 0 && a[0] == b[0] {
        lemma_lex_asymmetric(a.drop_first(), b.drop_first());
    }
}

pub proof fn lemma_lex_transitive(a: Seq<char>, b: Seq<char>, c: Seq<char>)
    requires
        lex_lt(a, b),
        lex_lt(b, c),
    ensures
        lex_lt(a, c),
    decreases a.len(),
{
    if a.len() > 0 && b.len() > 0 && c.len() > 0 && a[0] == b[0] && b[0] == c[0] {
        lemma_lex_transitive(a.drop_first(), b.drop_first(), c.drop_first());
    }
}

/// `a < b` in lexicographic code-point order.
pub fn lex_less(a: &[char], b: &[char]) -> (r: bool)
    ensures
        r == lex_lt(a@, b@),
{
    let mut i: usize = 0;
    assert(a@.subrange(0, a@.len() as int) == a@);
    assert(b@.subrange(0, b@.len() as int) == b@);
    while i < a.len() && i < b.len() && a[i] == b[i]
        invariant
            i <= a@.len(),
            i <= b@.len(),
            lex_lt(a@, b@) == lex_lt(
                a@.subrange(i as int, a@.len() as int),
                b@.subrange(i as int, b@.len() as int),
            ),
        decreases a.len() - i,
    {
        assert(a@.subrange(i as int, a@.len() as int).drop_first() == a@.subrange(
            i + 1,
            a@.len() as int,
        ));
        assert(b@.subrange(i as int, b@.len() as int).drop_first() == b@.subrange(
            i + 1,
            b@.len() as int,
        ));
        i = i + 1;
    }
    if i == a.len() {
        i < b.len()
    } else if i == b.len() {
        false
    } else {
        a[i] < b[i]
    }
}

/// A set of alias names, kept in the order `BTreeSet<String>` yields them.
/// It is a sorted `Vec`: vstd gives `BTreeSet` no specification, and its
/// `BTreeMap` one holds only for keys shown to obey its `Ord` model, which
/// `String` is not.
pub struct AliasesFile {
    aliases: Vec<String>,
}

pub open spec fn name_views(v: Seq<String>) -> Seq<Seq<char>> {
    v.map_values(|s: String| s@)
}

impl AliasesFile {
    /// The alias names, in ascending order.
    pub closed spec fn names(&self) -> Seq<Seq<char>> {
        name_views(self.aliases@)
    }

    pub open spec fn wf(&self) -> bool {
        strictly_sorted(self.names())
    }

    /// An empty set.
    pub fn new() -> (r: Self)
        ensures
            r.wf(),
            r.names() == Seq::<Seq<char>>::empty(),
    {
        let r = AliasesFile { aliases: Vec::new() };
        assert(r.names() == Seq::<Seq<char>>::empty());
        r
    }

    /// Position of the first name not below `x`.
    fn lower_bound(&self, x: &[char]) -> (r: usize)
        requires
            self.wf(),
        ensures
            r <= self.names().len(),
            forall|k: int| 0 <= k < r ==> lex_lt(#[trigger] self.names()[k], x@),
            forall|k: int| r <= k < self.names().len() ==> !lex_lt(#[trigger] self.names()[k], x@),
    {
        let n = self.aliases.len();
        let mut i: usize = 0;
        while i < n
            invariant
                n == self.names().len(),
                self.wf(),
                i <= n,
                forall|k: int| 0 <= k < i ==> lex_lt(#[trigger] self.names()[k], x@),
            decreases n - i,
        {
            let cur = chars_of(self.aliases[i].as_str());
            assert(cur@ == self.names()[i as int]);
            if !lex_less(&cur, x) {
                assert forall|k: int| i <= k < n implies !lex_lt(
                    #[trigger] self.names()[k],
                    x@,
                ) by {
                    if k > i && lex_lt(self.names()[k], x@) {
                        assert(lex_lt(self.names()[i as int], self.names()[k]));
                        lemma_lex_transitive(self.names()[i as int], self.names()[k], x@);
                    }
                }
                return i;
            }
            i = i + 1;
        }
        i
    }

    /// Whether `name` is in the set.
    pub fn contains(&self, name: &str) -> (r: bool)
        requires
            self.wf(),
        ensures
            r == self.names().contains(name@),
    {
        let x = chars_of(name);
        let p = self.lower_bound(&x);
        if p < self.aliases.len() {
            let cur = chars_of(self.aliases[p].as_str());
            assert(cur@ == self.names()[p as int]);
            if crate::text::chars_eq(&cur, &x) {
                assert(self.names()[p as int] == name@);
                return true;
            }
            proof {
                lemma_lex_trichotomy(cur@, x@);
                assert forall|k: int| 0 <= k < self.names().len() implies self.names()[k]
                    != name@ by {
                    if k < p {
                        lemma_lex_irreflexive(x@);
                    } else if k > p {
                        assert(lex_lt(self.names()[p as int], self.names()[k]));
                        lemma_lex_asymmetric(self.names()[p as int], self.names()[k]);
                    }
                }
            }
        } else {
            proof {
                assert forall|k: int| 0 <= k < self.names().len() implies self.names()[k]
                    != name@ by {
                    lemma_lex_irreflexive(x@);
                }
            }
        }
        false
    }

    /// Adds `name`; `true` when it was not present before.
    pub fn insert(&mut self, name: &str) -> (added: bool)
        requires
            old(self).wf(),
        ensures
            final(self).wf(),
            added == !old(self).names().contains(name@),
            final(self).names().to_set() == old(self).names().to_set().insert(name@),
            added ==> final(self).names().len() == old(self).names().len() + 1,
            !added ==> final(self).names() == old(self).names(),
    {
        let x = chars_of(name);
        let p = self.lower_bound(&x);
        let ghost old_names = self.names();
        if p < self.aliases.len() {
            let cur = chars_of(self.aliases[p].as_str());
            assert(cur@ == self.names()[p as int]);
            if crate::text::chars_eq(&cur, &x) {
                assert(old_names[p as int] == name@);
                assert(old_names.to_set().insert(name@) == old_names.to_set());
                return false;
            }
            proof {
                lemma_lex_trichotomy(cur@, x@);
            }
        }
        proof {
            assert forall|k: int| 0 <= k < old_names.len() implies old_names[k] != name@ by {
                if k < p {
                    lemma_lex_irreflexive(x@);
                } else if k > p {
                    assert(lex_lt(old_names[p as int], old_names[k]));
                    lemma_lex_asymmetric(old_names[p as int], old_names[k]);
                }
            }
        }
        self.aliases.insert(p, string_of(&x));
        let ghost new_names = self.names();
        assert(new_names == old_names.insert(p as int, name@));
        proof {
            assert forall|i: int, j: int| 0 <= i < j < new_names.len() implies lex_lt(
                #[trigger] new_names[i],
                #[trigger] new_names[j],
            ) by {
                if j < p {
                } else if j == p {
                } else if i == p {
                    // x < old[p] <= old[j - 1]
                    lemma_lex_trichotomy(old_names[p as int], x@);
                    if j - 1 > p {
                        assert(lex_lt(old_names[p as int], old_names[j - 1]));
                        lemma_lex_transitive(x@, old_names[p as int], old_names[j - 1]);
                    }
                } else if i < p {
                    assert(new_names[j] == old_names[j - 1]);
                    lemma_lex_trichotomy(old_names[p as int], x@);
                    if j - 1 > p {
                        assert(lex_lt(old_names[p as int], old_names[j - 1]));
                        lemma_lex_transitive(x@, old_names[p as int], old_names[j - 1]);
                    }
                    lemma_lex_transitive(old_names[i], x@, old_names[j - 1]);
                } else {
                    assert(new_names[i] == old_names[i - 1]);
                    assert(new_names[j] == old_names[j - 1]);
                }
            }
            assert(new_names.to_set() =~= old_names.to_set().insert(name@)) by {
                assert forall|s: Seq<char>| new_names.to_set().contains(s) implies old_names.to_set().insert(name@).contains(s) by {
                    let k = choose|k: int| 0 <= k < new_names.len() && new_names[k] == s;
                    if k < p {
                        assert(old_names[k] == s);
                    } else if k > p {
                        assert(old_names[k - 1] == s);
                    }
                }
                assert forall|s: Seq<char>| old_names.to_set().insert(name@).contains(s) implies new_names.to_set().contains(s) by {
                    if s == name@ {
                        assert(new_names[p as int] == s);
                    } else {
                        let k = choose|k: int| 0 <= k < old_names.len() && old_names[k] == s;
                        if k < p {
                            assert(new_names[k] == s);
                        } else {
                            assert(new_names[k + 1] == s);
                        }
                    }
                }
            }
        }
        true
    }

    /// Removes `name`; `true` when it was present.
    pub fn remove(&mut self, name: &str) -> (removed: bool)
        requires
            old(self).wf(),
        ensures
            final(self).wf(),
            removed == old(self).names().contains(name@),
            final(self).names().to_set() == old(self).names().to_set().remove(name@),
            !removed ==> final(self).names() == old(self).names(),
    {
        let x = chars_of(name);
        let p = self.lower_bound(&x);
        let ghost old_names = self.names();
        if p < self.aliases.len() {
            let cur = chars_of(self.aliases[p].as_str());
            assert(cur@ == self.names()[p as int]);
            if crate::text::chars_eq(&cur, &x) {
                self.aliases.remove(p);
                let ghost new_names = self.names();
                assert(new_names == old_names.remove(p as int));
                proof {
                    assert forall|i: int, j: int| 0 <= i < j < new_names.len() implies lex_lt(
                        #[trigger] new_names[i],
                        #[trigger] new_names[j],
                    ) by {
                        if i < p && j >= p {
                            assert(new_names[j] == old_names[j + 1]);
                        } else if i >= p {
                            assert(new_names[i] == old_names[i + 1]);
                            assert(new_names[j] == old_names[j + 1]);
                        }
                    }
                    assert forall|k: int| 0 <= k < old_names.len() && k != p implies old_names[k]
                        != name@ by {
                        if k < p {
                            lemma_lex_asymmetric(old_names[k], old_names[p as int]);
                            lemma_lex_irreflexive(name@);
                        } else {
                            lemma_lex_irreflexive(name@);
                        }
                    }
                    assert(new_names.to_set() =~= old_names.to_set().remove(name@)) by {
                        assert forall|s: Seq<char>| new_names.to_set().contains(s) implies old_names.to_set().remove(name@).contains(s) by {
                            let k = choose|k: int| 0 <= k < new_names.len() && new_names[k] == s;
                            if k < p {
                                assert(old_names[k] == s);
                            } else {
                                assert(old_names[k + 1] == s);
                            }
                        }
                        assert forall|s: Seq<char>| old_names.to_set().remove(name@).contains(s) implies new_names.to_set().contains(s) by {
                            let k = choose|k: int| 0 <= k < old_names.len() && old_names[k] == s;
                            if k < p {
                                assert(new_names[k] == s);
                            } else {
                                assert(k != p);
                                assert(new_names[k - 1] == s);
                            }
                        }
                    }
                }
                return true;
            }
            proof {
                lemma_lex_trichotomy(cur@, x@);
            }
        }
        proof {
            assert forall|k: int| 0 <= k < old_names.len() implies old_names[k] != name@ by {
                if k < p {
                    lemma_lex_irreflexive(x@);
                } else if k > p {
                    assert(lex_lt(old_names[p as int], old_names[k]));
                    lemma_lex_asymmetric(old_names[p as int], old_names[k]);
                }
            }
            assert(old_names.to_set().remove(name@) =~= old_names.to_set());
        }
        false
    }

    /// Number of aliases.
    pub fn len(&self) -> (n: usize)
        ensures
            n == self.names().len(),
    {
        self.aliases.len()
    }

    /// Whether no alias is configured.
    pub fn is_empty(&self) -> (b: bool)
        ensures
            b == (self.names().len() == 0),
    {
        self.aliases.len() == 0
    }

    /// The alias names, in ascending order.
    pub fn to_vec(&self) -> (v: Vec<String>)
        ensures
            name_views(v@) == self.names(),
    {
        self.aliases.clone()
    }
}

/// A strictly sorted sequence is determined by the set of its elements.
pub proof fn lemma_sorted_determined_by_set(a: Seq<Seq<char>>, b: Seq<Seq<char>>)
    requires
        strictly_sorted(a),
        strictly_sorted(b),
        a.to_set() == b.to_set(),
    ensures
        a == b,
    decreases a.len(),
{
    if a.len() == 0 {
        if b.len() > 0 {
            assert(b.to_set().contains(b[0]));
        }
    } else if b.len() == 0 {
        assert(a.to_set().contains(a[0]));
    } else {
        assert(b.to_set().contains(a[0]));
        assert(a.to_set().contains(b[0]));
        let k = choose|k: int| 0 <= k < b.len() && b[k] == a[0];
        let m = choose|m: int| 0 <= m < a.len() && a[m] == b[0];
        if k > 0 {
            // b[0] < b[k] == a[0] and a[0] <= a[m] == b[0]
            assert(lex_lt(b[0], b[k]));
            if m > 0 {
                assert(lex_lt(a[0], a[m]));
                lemma_lex_asymmetric(b[0], a[0]);
            } else {
                lemma_lex_irreflexive(a[0]);
            }
        }
        assert(a[0] == b[0]);
        let a1 = a.drop_first();
        let b1 = b.drop_first();
        assert forall|x: Seq<char>| a1.to_set().contains(x) <==> b1.to_set().contains(x) by {
            if a1.to_set().contains(x) {
                let i = choose|i: int| 0 <= i < a1.len() && a1[i] == x;
                assert(a[i + 1] == x);
                assert(lex_lt(a[0], x));
                assert(b.to_set().contains(x));
                let j = choose|j: int| 0 <= j < b.len() && b[j] == x;
                if j == 0 {
                    lemma_lex_irreflexive(x);
                }
                assert(b1[j - 1] == x);
            }
            if b1.to_set().contains(x) {
                let i = choose|i: int| 0 <= i < b1.len() && b1[i] == x;
                assert(b[i + 1] == x);
                assert(lex_lt(b[0], x));
                assert(a.to_set().contains(x));
                let j = choose|j: int| 0 <= j < a.len() && a[j] == x;
                if j == 0 {
                    lemma_lex_irreflexive(x);
                }
                assert(a1[j - 1] == x);
            }
        }
        assert(a1.to_set() =~= b1.to_set());
        lemma_sorted_determined_by_set(a1, b1);
        assert(a == seq![a[0]] + a1);
        assert(b == seq![b[0]] + b1);
    }
}

/// Adding an alias that was absent and then removing it gives back exactly
/// the alias list one started from.
pub proof fn law_insert_then_remove_restores(
    before: Seq<Seq<char>>,
    inserted: Seq<Seq<char>>,
    removed: Seq<Seq<char>>,
    name: Seq<char>,
)
    requires
        strictly_sorted(before),
        strictly_sorted(inserted),
        strictly_sorted(removed),
        !before.contains(name),
        inserted.to_set() == before.to_set().insert(name),
        removed.to_set() == inserted.to_set().remove(name),
    ensures
        removed == before,
{
    assert(before.to_set().insert(name).remove(name) =~= before.to_set());
    lemma_sorted_determined_by_set(removed, before);
}


/// Names joined by `, `.
pub open spec fn comma_joined(ws: Seq<Seq<char>>) -> Seq<char>
    decreases ws.len(),
{
    if ws.len() == 0 {
        Seq::empty()
    } else if ws.len() == 1 {
        ws[0]
    } else {
        comma_joined(ws.drop_last()) + ", "@ + ws.last()
    }
}

/// What `alias` without a tool reports once the hook is in place.
pub open spec fn spec_hook_message(names: Seq<Seq<char>>) -> Seq<char> {
    if names.len() == 0 {
        "Shell hook is set up. No aliases configured yet."@
    } else {
        "Shell hook is set up. "@ + crate::text::decimal(names.len()) + " alias(es) active: "@
            + comma_joined(names)
    }
}

impl AliasesFile {
    /// The report of `alias` without a tool.
    pub fn hook_message(&self) -> (r: String)
        ensures
            r@ == spec_hook_message(self.names()),
    {
        let mut m: Vec<char> = Vec::new();
        if self.aliases.len() == 0 {
            append_str(&mut m, "Shell hook is set up. No aliases configured yet.");
            return string_of(&m);
        }
        append_str(&mut m, "Shell hook is set up. ");
        let d = crate::text::usize_digits(self.aliases.len());
        crate::text::append_chars(&mut m, &d);
        append_str(&mut m, " alias(es) active: ");
        let ghost base = m@;
        let mut i: usize = 0;
        while i < self.aliases.len()
            invariant
                i <= self.aliases@.len(),
                self.aliases@.len() > 0,
                m@ == base + comma_joined(self.names().subrange(0, i as int)),
            decreases self.aliases.len() - i,
        {
            let ghost pre = self.names().subrange(0, i + 1);
            assert(pre.drop_last() == self.names().subrange(0, i as int));
            if i > 0 {
                append_str(&mut m, ", ");
            }
            append_str(&mut m, self.aliases[i].as_str());
            proof {
                if i == 0 {
                    assert(comma_joined(pre) == pre[0]);
                }
            }
            i = i + 1;
        }
        assert(self.names().subrange(0, self.names().len() as int) == self.names());
        string_of(&m)
    }
}

/// The report of `alias <tool> --remove`.
pub fn removed_message(tool: &str, removed: bool) -> (r: String)
    ensures
        removed ==> r@ == "Removed alias for `"@ + tool@ + "`."@,
        !removed ==> r@ == "No alias for `"@ + tool@ + "` found."@,
{
    let mut m: Vec<char> = Vec::new();
    if removed {
        append_str(&mut m, "Removed alias for `");
        append_str(&mut m, tool);
        append_str(&mut m, "`.");
    } else {
        append_str(&mut m, "No alias for `");
        append_str(&mut m, tool);
        append_str(&mut m, "` found.");
    }
    string_of(&m)
}

/// The report of `alias <tool>`.
pub fn added_message(tool: &str, added: bool) -> (r: String)
    ensures
        added ==> r@ == "Added alias for `"@ + tool@ + "`."@,
        !added ==> r@ == "Alias for `"@ + tool@ + "` already present."@,
{
    let mut m: Vec<char> = Vec::new();
    if added {
        append_str(&mut m, "Added alias for `");
        append_str(&mut m, tool);
        append_str(&mut m, "`.");
    } else {
        append_str(&mut m, "Alias for `");
        append_str(&mut m, tool);
        append_str(&mut m, "` already present.");
    }
    string_of(&m)
}

} // verus!
