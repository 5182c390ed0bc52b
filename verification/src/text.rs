//! Character-level string helpers with exact specifications.
//!
//! Everything here works on sequences of `char`: a `&str` is turned into a
//! `Vec<char>` once (`chars_of`) and the result is turned back into a
//! `String` (`string_of`).
use vstd::prelude::*;

verus! {

// ── Specifications ───────────────────────────────────────────────────────────

/// Unicode `White_Space`, the set that `char::is_whitespace` tests.
pub open spec fn is_ws(c: char) -> bool {
    let u = c as u32;
    ||| (0x9 <= u && u <= 0xD)
    ||| u == 0x20
    ||| u == 0x85
    ||| u == 0xA0
    ||| u == 0x1680
    ||| (0x2000 <= u && u <= 0x200A)
    ||| u == 0x2028
    ||| u == 0x2029
    ||| u == 0x202F
    ||| u == 0x205F
    ||| u == 0x3000
}

/// `s` without its leading whitespace.
pub open spec fn trim_start(s: Seq<char>) -> Seq<char>
    decreases s.len(),
{
    if s.len() > 0 && is_ws(s[0]) {
        trim_start(s.drop_first())
    } else {
        s
    }
}

/// `s` without its trailing whitespace.
pub open spec fn trim_end(s: Seq<char>) -> Seq<char>
    decreases s.len(),
{
    if s.len() > 0 && is_ws(s.last()) {
        trim_end(s.drop_last())
    } else {
        s
    }
}

/// `s` without leading and trailing whitespace (`str::trim`).
pub open spec fn trim(s: Seq<char>) -> Seq<char> {
    trim_end(trim_start(s))
}

pub open spec fn starts_with(s: Seq<char>, p: Seq<char>) -> bool {
    p.len() <= s.len() && s.subrange(0, p.len() as int) == p
}

pub open spec fn ends_with(s: Seq<char>, p: Seq<char>) -> bool {
    p.len() <= s.len() && s.subrange(s.len() - p.len(), s.len() as int) == p
}

/// `str::strip_prefix`.
pub open spec fn strip_prefix(s: Seq<char>, p: Seq<char>) -> Option<Seq<char>> {
    if starts_with(s, p) {
        Some(s.subrange(p.len() as int, s.len() as int))
    } else {
        None
    }
}

/// `str::strip_suffix`.
pub open spec fn strip_suffix(s: Seq<char>, p: Seq<char>) -> Option<Seq<char>> {
    if ends_with(s, p) {
        Some(s.subrange(0, s.len() - p.len()))
    } else {
        None
    }
}

/// `str::trim_start_matches` with a string pattern: removes the pattern
/// from the front as many times as it occurs there.
pub open spec fn trim_start_matches(s: Seq<char>, p: Seq<char>) -> Seq<char>
    decreases s.len(),
{
    if p.len() > 0 && starts_with(s, p) {
        trim_start_matches(s.subrange(p.len() as int, s.len() as int), p)
    } else {
        s
    }
}

/// `str::trim_end_matches` with a string pattern.
pub open spec fn trim_end_matches(s: Seq<char>, p: Seq<char>) -> Seq<char>
    decreases s.len(),
{
    if p.len() > 0 && ends_with(s, p) {
        trim_end_matches(s.subrange(0, s.len() - p.len()), p)
    } else {
        s
    }
}

/// Index of the first `c` in `s`, or `s.len()` when there is none.
pub open spec fn index_of(s: Seq<char>, c: char) -> int
    decreases s.len(),
{
    if s.len() == 0 {
        0
    } else if s[0] == c {
        0
    } else {
        1 + index_of(s.drop_first(), c)
    }
}

/// `s` with its first `c` replaced by `r` (`str::replacen(c, r, 1)`).
pub open spec fn replace_first(s: Seq<char>, c: char, r: Seq<char>) -> Seq<char>
    decreases s.len(),
{
    if s.len() == 0 {
        s
    } else if s[0] == c {
        r + s.drop_first()
    } else {
        seq![s[0]] + replace_first(s.drop_first(), c, r)
    }
}

/// `p` occurs somewhere in `s`.
pub open spec fn contains(s: Seq<char>, p: Seq<char>) -> bool {
    exists|i: int| 0 <= i && i + p.len() <= s.len() && #[trigger] s.subrange(i, i + p.len()) == p
}

// ── Lemmas ───────────────────────────────────────────────────────────────────

pub proof fn lemma_index_of(s: Seq<char>, c: char, i: int)
    requires
        0 <= i <= s.len(),
        i < s.len() ==> s[i] == c,
        forall|k: int| 0 <= k < i ==> s[k] != c,
    ensures
        index_of(s, c) == i,
    decreases s.len(),
{
    if s.len() > 0 && s[0] != c {
        lemma_index_of(s.drop_first(), c, i - 1);
    }
}

pub proof fn lemma_index_of_bounds(s: Seq<char>, c: char)
    ensures
        0 <= index_of(s, c) <= s.len(),
        index_of(s, c) < s.len() ==> s[index_of(s, c)] == c,
        forall|k: int| 0 <= k < index_of(s, c) ==> s[k] != c,
    decreases s.len(),
{
    if s.len() > 0 && s[0] != c {
        lemma_index_of_bounds(s.drop_first(), c);
        assert forall|k: int| 0 <= k < index_of(s, c) implies s[k] != c by {
            if k > 0 {
                assert(s[k] == s.drop_first()[k - 1]);
            }
        }
    }
}

pub proof fn lemma_replace_first(s: Seq<char>, c: char, r: Seq<char>, i: int)
    requires
        0 <= i <= s.len(),
        i < s.len() ==> s[i] == c,
        forall|k: int| 0 <= k < i ==> s[k] != c,
    ensures
        replace_first(s, c, r) == (if i < s.len() {
            s.subrange(0, i) + r + s.subrange(i + 1, s.len() as int)
        } else {
            s
        }),
    decreases s.len(),
{
    if s.len() == 0 {
    } else if s[0] == c {
        assert(s.subrange(0, 0) + r + s.subrange(1, s.len() as int) == r + s.drop_first());
    } else {
        lemma_replace_first(s.drop_first(), c, r, i - 1);
        if i < s.len() {
            assert(seq![s[0]] + (s.drop_first().subrange(0, i - 1) + r + s.drop_first().subrange(
                i,
                s.drop_first().len() as int,
            )) == s.subrange(0, i) + r + s.subrange(i + 1, s.len() as int));
        } else {
            assert(seq![s[0]] + s.drop_first() == s);
        }
    }
}

// ── Executable helpers ───────────────────────────────────────────────────────

/// The characters of a string slice, in order.
pub fn chars_of(s: &str) -> (v: Vec<char>)
    ensures
        v@ == s@,
{
    let n = s.unicode_len();
    let mut v: Vec<char> = Vec::new();
    let mut i: usize = 0;
    while i < n
        invariant
            n == s@.len(),
            i <= n,
            v@ == s@.subrange(0, i as int),
        decreases n - i,
    {
        let c = s.get_char(i);
        v.push(c);
        i = i + 1;
    }
    assert(v@ == s@);
    v
}

/// Appends one character to a `String` (std's `String::push`).
#[verifier::external_body]
pub(crate) fn push_char(s: &mut String, c: char)
    ensures
        final(s)@ == old(s)@.push(c),
{
    s.push(c);
}

/// Builds a `String` holding exactly the given characters.
pub fn string_of(v: &[char]) -> (s: String)
    ensures
        s@ == v@,
{
    let mut s = String::new();
    let mut i: usize = 0;
    while i < v.len()
        invariant
            i <= v.len(),
            s@ == v@.subrange(0, i as int),
        decreases v.len() - i,
    {
        push_char(&mut s, v[i]);
        i = i + 1;
    }
    assert(s@ == v@);
    s
}

/// `char::is_whitespace`.
pub fn is_whitespace(c: char) -> (b: bool)
    ensures
        b == is_ws(c),
{
    let u = c as u32;
    (0x9 <= u && u <= 0xD) || u == 0x20 || u == 0x85 || u == 0xA0 || u == 0x1680 || (0x2000 <= u
        && u <= 0x200A) || u == 0x2028 || u == 0x2029 || u == 0x202F || u == 0x205F || u == 0x3000
}

/// A copy of `v[a..b]`.
pub fn slice_of(v: &[char], a: usize, b: usize) -> (r: Vec<char>)
    requires
        a <= b <= v@.len(),
    ensures
        r@ == v@.subrange(a as int, b as int),
{
    let mut r: Vec<char> = Vec::new();
    let mut i = a;
    while i < b
        invariant
            a <= i <= b,
            b <= v@.len(),
            r@ == v@.subrange(a as int, i as int),
        decreases b - i,
    {
        r.push(v[i]);
        i = i + 1;
    }
    r
}

/// Equality of two character sequences.
pub fn chars_eq(a: &[char], b: &[char]) -> (r: bool)
    ensures
        r == (a@ == b@),
{
    if a.len() != b.len() {
        return false;
    }
    let mut i: usize = 0;
    while i < a.len()
        invariant
            a@.len() == b@.len(),
            i <= a@.len(),
            forall|k: int| 0 <= k < i ==> a@[k] == b@[k],
        decreases a.len() - i,
    {
        if a[i] != b[i] {
            return false;
        }
        i = i + 1;
    }
    assert(a@ == b@);
    true
}

/// Equality of a character sequence and a string slice.
pub fn eq_str(a: &[char], b: &str) -> (r: bool)
    ensures
        r == (a@ == b@),
{
    let bv = chars_of(b);
    chars_eq(a, bv.as_slice())
}

/// Whether `v` begins with `p`.
pub fn has_prefix(v: &[char], p: &[char]) -> (r: bool)
    ensures
        r == starts_with(v@, p@),
{
    if p.len() > v.len() {
        return false;
    }
    let mut i: usize = 0;
    while i < p.len()
        invariant
            p@.len() <= v@.len(),
            i <= p@.len(),
            forall|k: int| 0 <= k < i ==> v@[k] == p@[k],
        decreases p.len() - i,
    {
        if v[i] != p[i] {
            assert(v@.subrange(0, p@.len() as int)[i as int] != p@[i as int]);
            return false;
        }
        i = i + 1;
    }
    assert(v@.subrange(0, p@.len() as int) == p@);
    true
}

/// Whether `v` ends with `p`.
pub fn has_suffix(v: &[char], p: &[char]) -> (r: bool)
    ensures
        r == ends_with(v@, p@),
{
    if p.len() > v.len() {
        return false;
    }
    let vl = v.len();
    let off = vl - p.len();
    let mut i: usize = 0;
    while i < p.len()
        invariant
            p@.len() <= v@.len(),
            off == v@.len() - p@.len(),
            off + p@.len() == v@.len(),
            vl == v@.len(),
            i <= p@.len(),
            forall|k: int| 0 <= k < i ==> v@[off + k] == p@[k],
        decreases p.len() - i,
    {
        if v[off + i] != p[i] {
            assert(v@.subrange(off as int, v@.len() as int)[i as int] != p@[i as int]);
            return false;
        }
        i = i + 1;
    }
    assert(v@.subrange(off as int, v@.len() as int) == p@);
    true
}

/// Whether `v` begins with the literal `p`.
pub fn starts_with_str(v: &[char], p: &str) -> (r: bool)
    ensures
        r == starts_with(v@, p@),
{
    let pv = chars_of(p);
    has_prefix(v, pv.as_slice())
}

/// `str::strip_prefix` with a literal pattern.
pub fn strip_prefix_str(v: &[char], p: &str) -> (r: Option<Vec<char>>)
    ensures
        r matches Some(x) ==> strip_prefix(v@, p@) == Some(x@),
        r is None ==> strip_prefix(v@, p@) is None,
{
    let pv = chars_of(p);
    if has_prefix(v, pv.as_slice()) {
        Some(slice_of(v, pv.len(), v.len()))
    } else {
        None
    }
}

/// `str::strip_suffix` with a literal pattern.
pub fn strip_suffix_str(v: &[char], p: &str) -> (r: Option<Vec<char>>)
    ensures
        r matches Some(x) ==> strip_suffix(v@, p@) == Some(x@),
        r is None ==> strip_suffix(v@, p@) is None,
{
    let pv = chars_of(p);
    if has_suffix(v, pv.as_slice()) {
        Some(slice_of(v, 0, v.len() - pv.len()))
    } else {
        None
    }
}

/// `str::trim`.
pub fn trimmed(v: &[char]) -> (r: Vec<char>)
    ensures
        r@ == trim(v@),
{
    let n = v.len();
    let mut i: usize = 0;
    assert(v@.subrange(0, n as int) == v@);
    while i < n && is_whitespace(v[i])
        invariant
            n == v@.len(),
            i <= n,
            trim_start(v@) == trim_start(v@.subrange(i as int, n as int)),
        decreases n - i,
    {
        assert(v@.subrange(i as int, n as int).drop_first() == v@.subrange(i + 1, n as int));
        i = i + 1;
    }
    let ghost ts = v@.subrange(i as int, n as int);
    assert(trim_start(v@) == ts);
    let mut j: usize = n;
    while j > i && is_whitespace(v[j - 1])
        invariant
            n == v@.len(),
            i <= j <= n,
            ts == v@.subrange(i as int, n as int),
            trim_end(ts) == trim_end(v@.subrange(i as int, j as int)),
        decreases j - i,
    {
        assert(v@.subrange(i as int, j as int).drop_last() == v@.subrange(i as int, j - 1));
        j = j - 1;
    }
    slice_of(v, i, j)
}

/// `str::trim_start_matches` with a literal pattern.
pub fn trim_start_matches_str(v: &[char], p: &str) -> (r: Vec<char>)
    ensures
        r@ == trim_start_matches(v@, p@),
{
    let pv = chars_of(p);
    if pv.len() == 0 {
        return slice_of(v, 0, v.len());
    }
    let mut cur = slice_of(v, 0, v.len());
    assert(cur@ == v@);
    while has_prefix(cur.as_slice(), pv.as_slice())
        invariant
            pv@ == p@,
            pv@.len() > 0,
            trim_start_matches(v@, p@) == trim_start_matches(cur@, p@),
        decreases cur@.len(),
    {
        cur = slice_of(cur.as_slice(), pv.len(), cur.len());
    }
    cur
}

/// `str::trim_end_matches` with a literal pattern.
pub fn trim_end_matches_str(v: &[char], p: &str) -> (r: Vec<char>)
    ensures
        r@ == trim_end_matches(v@, p@),
{
    let pv = chars_of(p);
    if pv.len() == 0 {
        return slice_of(v, 0, v.len());
    }
    let mut cur = slice_of(v, 0, v.len());
    assert(cur@ == v@);
    while has_suffix(cur.as_slice(), pv.as_slice())
        invariant
            pv@ == p@,
            pv@.len() > 0,
            trim_end_matches(v@, p@) == trim_end_matches(cur@, p@),
        decreases cur@.len(),
    {
        cur = slice_of(cur.as_slice(), 0, cur.len() - pv.len());
    }
    cur
}

/// Position of the first `c` in `v` (or `v.len()`).
pub fn find_char(v: &[char], c: char) -> (r: usize)
    ensures
        r == index_of(v@, c),
{
    let mut i: usize = 0;
    while i < v.len() && v[i] != c
        invariant
            i <= v@.len(),
            forall|k: int| 0 <= k < i ==> v@[k] != c,
        decreases v.len() - i,
    {
        i = i + 1;
    }
    proof {
        lemma_index_of(v@, c, i as int);
    }
    i
}

/// `v` with its first `c` replaced by the literal `r`.
pub fn replace_first_str(v: &[char], c: char, r: &str) -> (out: Vec<char>)
    ensures
        out@ == replace_first(v@, c, r@),
{
    let i = find_char(v, c);
    proof {
        lemma_index_of_bounds(v@, c);
        lemma_replace_first(v@, c, r@, i as int);
    }
    if i == v.len() {
        return slice_of(v, 0, v.len());
    }
    let mut out = slice_of(v, 0, i);
    let rv = chars_of(r);
    let mut k: usize = 0;
    while k < rv.len()
        invariant
            i < v@.len(),
            out@ == v@.subrange(0, i as int) + rv@.subrange(0, k as int),
            k <= rv@.len(),
        decreases rv.len() - k,
    {
        out.push(rv[k]);
        k = k + 1;
    }
    let mut m: usize = i + 1;
    while m < v.len()
        invariant
            i < m <= v@.len(),
            out@ == v@.subrange(0, i as int) + rv@ + v@.subrange(i + 1, m as int),
        decreases v.len() - m,
    {
        out.push(v[m]);
        m = m + 1;
    }
    out
}

/// Whether the literal `p` occurs in `v`.
pub fn contains_str(v: &[char], p: &str) -> (r: bool)
    ensures
        r == contains(v@, p@),
{
    let pv = chars_of(p);
    if pv.len() > v.len() {
        return false;
    }
    if pv.len() == 0 {
        assert(v@.subrange(0, 0int + p@.len()) == p@);
        return true;
    }
    let vl = v.len();
    let lim = vl - pv.len();
    let mut i: usize = 0;
    while i <= lim
        invariant
            pv@ == p@,
            lim == v@.len() - pv@.len(),
            vl == v@.len(),
            pv@.len() > 0,
            i <= lim + 1,
            forall|k: int| 0 <= k < i ==> #[trigger] v@.subrange(k, k + pv@.len()) != pv@,
        decreases lim + 1 - i,
    {
        let w = slice_of(v, i, i + pv.len());
        if chars_eq(w.as_slice(), pv.as_slice()) {
            return true;
        }
        i = i + 1;
    }
    false
}

/// Appends the characters of `s` to `out`.
pub fn append_chars(out: &mut Vec<char>, s: &[char])
    ensures
        final(out)@ == old(out)@ + s@,
{
    let mut i: usize = 0;
    while i < s.len()
        invariant
            i <= s@.len(),
            out@ == old(out)@ + s@.subrange(0, i as int),
        decreases s.len() - i,
    {
        out.push(s[i]);
        i = i + 1;
    }
    assert(s@.subrange(0, s@.len() as int) == s@);
}

/// Appends the characters of the string slice `s` to `out`.
pub fn append_str(out: &mut Vec<char>, s: &str)
    ensures
        final(out)@ == old(out)@ + s@,
{
    let v = chars_of(s);
    append_chars(out, &v);
}

/// `dir` joined with the relative path `name`, as `Path::join` does on
/// Unix: a separator is added unless `dir` is empty or already ends in one.
pub open spec fn join_path(dir: Seq<char>, name: Seq<char>) -> Seq<char> {
    if dir.len() == 0 {
        name
    } else if dir.last() == '/' {
        dir + name
    } else {
        dir + "/"@ + name
    }
}

/// `Path::new(dir).join(name)` for a relative `name`, as a string.
pub fn join(dir: &str, name: &str) -> (r: String)
    ensures
        r@ == join_path(dir@, name@),
{
    let mut out = chars_of(dir);
    if out.len() > 0 && out[out.len() - 1] != '/' {
        append_str(&mut out, "/");
    }
    append_str(&mut out, name);
    string_of(&out)
}

/// The decimal digit `d` (0 to 9).
pub open spec fn digit_char(d: nat) -> char {
    if d == 0 {
        '0'
    } else if d == 1 {
        '1'
    } else if d == 2 {
        '2'
    } else if d == 3 {
        '3'
    } else if d == 4 {
        '4'
    } else if d == 5 {
        '5'
    } else if d == 6 {
        '6'
    } else if d == 7 {
        '7'
    } else if d == 8 {
        '8'
    } else {
        '9'
    }
}

/// Decimal representation of `n`, without leading zeros.
pub open spec fn decimal(n: nat) -> Seq<char>
    decreases n,
{
    if n < 10 {
        seq![digit_char(n)]
    } else {
        decimal(n / 10) + seq![digit_char(n % 10)]
    }
}

fn digit(d: usize) -> (c: char)
    requires
        d < 10,
    ensures
        c == digit_char(d as nat),
{
    if d == 0 {
        '0'
    } else if d == 1 {
        '1'
    } else if d == 2 {
        '2'
    } else if d == 3 {
        '3'
    } else if d == 4 {
        '4'
    } else if d == 5 {
        '5'
    } else if d == 6 {
        '6'
    } else if d == 7 {
        '7'
    } else if d == 8 {
        '8'
    } else {
        '9'
    }
}

/// The decimal digits of `n` (`n.to_string()`).
pub fn usize_digits(n: usize) -> (v: Vec<char>)
    ensures
        v@ == decimal(n as nat),
    decreases n,
{
    if n < 10 {
        let mut v: Vec<char> = Vec::new();
        v.push(digit(n));
        v
    } else {
        let mut v = usize_digits(n / 10);
        v.push(digit(n % 10));
        v
    }
}

/// The decimal digits of `n` (`n.to_string()`).
pub fn u64_digits(n: u64) -> (v: Vec<char>)
    ensures
        v@ == decimal(n as nat),
    decreases n,
{
    if n < 10 {
        let mut v: Vec<char> = Vec::new();
        v.push(digit(n as usize));
        v
    } else {
        let mut v = u64_digits(n / 10);
        v.push(digit((n % 10) as usize));
        v
    }
}

/// One line as `str::lines` yields it: a `\n`-terminated segment loses the
/// `\n` and then one `\r` before it, if any.
pub open spec fn terminated_line(seg: Seq<char>) -> Seq<char> {
    if seg.len() > 0 && seg.last() == '\r' {
        seg.drop_last()
    } else {
        seg
    }
}

/// `str::lines`: the text split at `\n` (a `\r` right before it is
/// dropped too); a final line ending is optional and adds no empty line.
pub open spec fn lines(s: Seq<char>) -> Seq<Seq<char>>
    decreases s.len(),
{
    if s.len() == 0 {
        Seq::empty()
    } else {
        let i = index_of(s, '\n');
        proof {
            lemma_index_of_bounds(s, '\n');
        }
        if i >= s.len() {
            seq![s]
        } else {
            seq![terminated_line(s.subrange(0, i))] + lines(s.subrange(i + 1, s.len() as int))
        }
    }
}

/// The lines of `v`, as `str::lines` splits them.
pub fn split_lines(v: &[char]) -> (r: Vec<Vec<char>>)
    ensures
        r@.map_values(|x: Vec<char>| x@) == lines(v@),
{
    let n = v.len();
    let mut out: Vec<Vec<char>> = Vec::new();
    let mut start: usize = 0;
    assert(v@.subrange(0, n as int) == v@);
    while start < n
        invariant
            n == v@.len(),
            start <= n,
            lines(v@) == out@.map_values(|x: Vec<char>| x@) + lines(v@.subrange(start as int, n as int)),
        decreases n - start,
    {
        let ghost rest = v@.subrange(start as int, n as int);
        let mut i = start;
        while i < n && v[i] != '\n'
            invariant
                start <= i <= n,
                n == v@.len(),
                forall|k: int| start <= k < i ==> v@[k] != '\n',
            decreases n - i,
        {
            i = i + 1;
        }
        proof {
            lemma_index_of(rest, '\n', i - start);
        }
        let ghost before = out@;
        if i == n {
            let seg = slice_of(v, start, n);
            out.push(seg);
            assert(out@.map_values(|x: Vec<char>| x@) == before.map_values(|x: Vec<char>| x@).push(rest));
            assert(lines(v@.subrange(n as int, n as int)) == Seq::<Seq<char>>::empty());
            start = n;
            assert(lines(v@) == out@.map_values(|x: Vec<char>| x@) + lines(v@.subrange(start as int, n as int)));
        } else {
            let end = if i > start && v[i - 1] == '\r' { i - 1 } else { i };
            let seg = slice_of(v, start, end);
            proof {
                assert(rest.subrange(0, i - start) == v@.subrange(start as int, i as int));
                assert(rest.subrange(i - start + 1, rest.len() as int) == v@.subrange(i + 1, n as int));
                if i > start && v@[i - 1] == '\r' {
                    assert(v@.subrange(start as int, i as int).drop_last() == v@.subrange(start as int, i - 1));
                }
            }
            out.push(seg);
            assert(out@.map_values(|x: Vec<char>| x@) == before.map_values(|x: Vec<char>| x@).push(
                terminated_line(v@.subrange(start as int, i as int)),
            ));
            start = i + 1;
        }
    }
    assert(lines(v@.subrange(n as int, n as int)) == Seq::<Seq<char>>::empty());
    assert(out@.map_values(|x: Vec<char>| x@) + Seq::<Seq<char>>::empty() == out@.map_values(|x: Vec<char>| x@));
    out
}


// ── Unsigned numbers ─────────────────────────────────────────────────────────

pub open spec fn is_digit(c: char) -> bool {
    48 <= (c as int) <= 57
}

/// Value of the decimal digits `s`.
pub open spec fn digits_value(s: Seq<char>) -> nat
    decreases s.len(),
{
    if s.len() == 0 {
        0
    } else {
        digits_value(s.drop_last()) * 10 + ((s.last() as int) - 48) as nat
    }
}

pub open spec fn all_digits(s: Seq<char>) -> bool {
    forall|i: int| 0 <= i < s.len() ==> #[trigger] is_digit(s[i])
}

/// `str::parse` for an unsigned integer type whose largest value is
/// `max`: an optional `+`, then at least one ASCII digit, with a value
/// that fits.
pub open spec fn parse_unsigned(s: Seq<char>, max: nat) -> Option<nat> {
    let d = if s.len() > 0 && s[0] == '+' {
        s.drop_first()
    } else {
        s
    };
    if d.len() > 0 && all_digits(d) && digits_value(d) <= max {
        Some(digits_value(d))
    } else {
        None
    }
}

proof fn lemma_digits_value_grows(s: Seq<char>, k: int)
    requires
        0 <= k <= s.len(),
        all_digits(s),
    ensures
        digits_value(s.subrange(0, k)) <= digits_value(s),
    decreases s.len(),
{
    if k < s.len() {
        assert(s.drop_last() == s.subrange(0, s.len() - 1));
        assert(all_digits(s.drop_last())) by {
            assert forall|i: int| 0 <= i < s.drop_last().len() implies #[trigger] is_digit(
                s.drop_last()[i],
            ) by {
                assert(is_digit(s[i]));
            }
        }
        lemma_digits_value_grows(s.drop_last(), k);
        assert(s.drop_last().subrange(0, k) == s.subrange(0, k));
        assert(is_digit(s[s.len() - 1]));
    } else {
        assert(s.subrange(0, k) == s);
    }
}

/// `str::parse::<u64>`.
pub fn parse_u64(s: &[char]) -> (r: Option<u64>)
    ensures
        r matches Some(v) ==> parse_unsigned(s@, u64::MAX as nat) == Some(v as nat),
        r is None ==> parse_unsigned(s@, u64::MAX as nat) is None,
{
    let n = s.len();
    let start: usize = if n > 0 && s[0] == '+' {
        1
    } else {
        0
    };
    let ghost d = if s@.len() > 0 && s@[0] == '+' {
        s@.drop_first()
    } else {
        s@
    };
    assert(d == s@.subrange(start as int, n as int));
    if start >= n {
        return None;
    }
    let mut acc: u64 = 0;
    let mut i: usize = start;
    while i < n
        invariant
            start <= i <= n,
            n == s@.len(),
            d == s@.subrange(start as int, n as int),
            d == (if s@.len() > 0 && s@[0] == '+' {
                s@.drop_first()
            } else {
                s@
            }),
            acc as nat == digits_value(d.subrange(0, i - start)),
            all_digits(d.subrange(0, i - start)),
        decreases n - i,
    {
        let c = s[i];
        let ghost pre = d.subrange(0, i + 1 - start);
        assert(pre.drop_last() == d.subrange(0, i - start));
        assert(pre.last() == c);
        if !('0' <= c && c <= '9') {
            proof {
                assert(!is_digit(d[i - start]));
                assert(!all_digits(d));
                assert(parse_unsigned(s@, u64::MAX as nat) is None);
            }
            return None;
        }
        let dv: u64 = (c as u32 - 48) as u64;
        if acc > 1844674407370955161 || (acc == 1844674407370955161 && dv > 5) {
            proof {
                assert(digits_value(pre) == acc * 10 + dv);
                if all_digits(d) {
                    lemma_digits_value_grows(d, i + 1 - start);
                    assert(digits_value(d) > u64::MAX);
                }
                assert(parse_unsigned(s@, u64::MAX as nat) is None);
            }
            return None;
        }
        acc = acc * 10 + dv;
        proof {
            assert(all_digits(pre)) by {
                assert forall|k: int| 0 <= k < pre.len() implies #[trigger] is_digit(pre[k]) by {
                    if k < pre.len() - 1 {
                        assert(pre[k] == d.subrange(0, i - start)[k]);
                    }
                }
            }
        }
        i = i + 1;
    }
    assert(d.subrange(0, n - start) == d);
    Some(acc)
}


/// The decimal form of a number is all digits, starts with one, and reads
/// back as the number.
pub proof fn lemma_decimal_digits(n: nat)
    ensures
        decimal(n).len() > 0,
        all_digits(decimal(n)),
        digits_value(decimal(n)) == n,
    decreases n,
{
    if n < 10 {
        let d = decimal(n);
        assert(d == seq![digit_char(n)]);
        assert(d.drop_last() == Seq::<char>::empty());
        assert((digit_char(n) as int) == 48 + n);
        assert(is_digit(d[0]));
        assert(d.last() == digit_char(n));
        assert(digits_value(d) == digits_value(d.drop_last()) * 10 + ((d.last() as int) - 48) as nat);
        assert(digits_value(Seq::<char>::empty()) == 0);
    } else {
        lemma_decimal_digits(n / 10);
        let h = decimal(n / 10);
        let d = decimal(n);
        let c = digit_char(n % 10);
        assert(d == h.push(c));
        assert(d.drop_last() == h);
        assert((c as int) == 48 + n % 10);
        assert forall|i: int| 0 <= i < d.len() implies #[trigger] is_digit(d[i]) by {
            if i < h.len() {
                assert(d[i] == h[i]);
            }
        }
        assert(d.last() == c);
        assert(digits_value(d) == digits_value(h) * 10 + ((c as int) - 48) as nat);
        assert(n == (n / 10) * 10 + n % 10);
    }
}

/// A decimal number has no whitespace at either end.
pub proof fn lemma_decimal_trimmed(n: nat)
    ensures
        trim(decimal(n)) == decimal(n),
{
    lemma_decimal_digits(n);
    let d = decimal(n);
    assert(is_digit(d[0]));
    assert(is_digit(d[d.len() - 1]));
    assert(!is_ws(d[0]));
    assert(!is_ws(d.last()));
    assert(trim_start(d) == d);
    assert(trim_end(d) == d);
}

} // verus!
