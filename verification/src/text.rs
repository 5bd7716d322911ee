//! Character-level helpers over strings, stated over `Seq<char>`.

use vstd::prelude::*;

verus! {

/// Appends one character to a string (`String::push`).
#[verifier::external_body]
pub(crate) fn push_char(s: &mut String, c: char)
    ensures
        final(s)@ == old(s)@.push(c),
{
    s.push(c);
}

/// Appends a string slice to a string (`String::push_str`).
#[verifier::external_body]
pub(crate) fn push_str(s: &mut String, t: &str)
    ensures
        final(s)@ == old(s)@ + t@,
{
    s.push_str(t);
}

/// Copies a string slice into an owned string.
pub fn owned(s: &str) -> (r: String)
    ensures
        r@ == s@,
{
    let mut r = String::new();
    push_str(&mut r, s);
    r
}

/// The characters of a string, in order.
pub fn chars_of(s: &str) -> (v: Vec<char>)
    ensures
        v@ == s@,
{
    let mut v: Vec<char> = Vec::new();
    for c in it: s.chars()
        invariant
            v@ == it.seq().take(it.index() as int),
            it.seq() == s@,
    {
        v.push(c);
    }
    v
}

/// The string made of the characters `v[lo..hi]`.
pub fn string_of_range(v: &Vec<char>, lo: usize, hi: usize) -> (r: String)
    requires
        lo <= hi <= v.len(),
    ensures
        r@ == v@.subrange(lo as int, hi as int),
{
    let mut r = String::new();
    let mut i = lo;
    while i < hi
        invariant
            lo <= i <= hi <= v.len(),
            r@ == v@.subrange(lo as int, i as int),
        decreases hi - i,
    {
        push_char(&mut r, v[i]);
        i = i + 1;
    }
    r
}

/// The string made of all the characters of `v`.
pub fn string_of(v: &Vec<char>) -> (r: String)
    ensures
        r@ == v@,
{
    let r = string_of_range(v, 0, v.len());
    assert(v@.subrange(0, v@.len() as int) =~= v@);
    r
}

/// Whether two character sequences are equal.
pub fn chars_equal(a: &Vec<char>, b: &Vec<char>) -> (r: bool)
    ensures
        r == (a@ == b@),
{
    if a.len() != b.len() {
        return false;
    }
    let mut i: usize = 0;
    while i < a.len()
        invariant
            a.len() == b.len(),
            i <= a.len(),
            forall|k: int| 0 <= k < i ==> a@[k] == b@[k],
        decreases a.len() - i,
    {
        if a[i] != b[i] {
            return false;
        }
        i = i + 1;
    }
    assert(a@ =~= b@);
    true
}

/// Whether two strings hold the same characters.
pub fn same_text(a: &str, b: &str) -> (r: bool)
    ensures
        r == (a@ == b@),
{
    let va = chars_of(a);
    let vb = chars_of(b);
    chars_equal(&va, &vb)
}

/// Unicode `White_Space`, the property that `char::is_whitespace` tests.
pub open spec fn is_space(c: char) -> bool {
    ||| ('\u{9}' <= c && c <= '\u{d}')
    ||| c == ' '
    ||| c == '\u{85}'
    ||| c == '\u{a0}'
    ||| c == '\u{1680}'
    ||| ('\u{2000}' <= c && c <= '\u{200a}')
    ||| c == '\u{2028}'
    ||| c == '\u{2029}'
    ||| c == '\u{202f}'
    ||| c == '\u{205f}'
    ||| c == '\u{3000}'
}

/// Whether `c` is Unicode white space.
pub fn is_whitespace(c: char) -> (r: bool)
    ensures
        r == is_space(c),
{
    ('\u{9}' <= c && c <= '\u{d}') || c == ' ' || c == '\u{85}' || c == '\u{a0}' || c == '\u{1680}'
        || ('\u{2000}' <= c && c <= '\u{200a}') || c == '\u{2028}' || c == '\u{2029}' || c
        == '\u{202f}' || c == '\u{205f}' || c == '\u{3000}'
}

/// The index of the first character of `s` at or after `i` that is not white space.
pub open spec fn skip_space(s: Seq<char>, i: int) -> int
    decreases s.len() - i,
{
    if 0 <= i < s.len() && is_space(s[i]) {
        skip_space(s, i + 1)
    } else {
        i
    }
}

/// The index just past the last character of `s[..j]` that is not white space.
pub open spec fn skip_space_back(s: Seq<char>, lo: int, j: int) -> int
    decreases j - lo,
{
    if lo < j && j <= s.len() && is_space(s[j - 1]) {
        skip_space_back(s, lo, j - 1)
    } else {
        j
    }
}

/// `s` without leading and trailing white space, as `str::trim` gives it.
pub open spec fn trim(s: Seq<char>) -> Seq<char> {
    let lo = skip_space(s, 0);
    s.subrange(lo, skip_space_back(s, lo, s.len() as int))
}

pub proof fn lemma_skip_space(s: Seq<char>, i: int)
    requires
        0 <= i <= s.len(),
    ensures
        i <= skip_space(s, i) <= s.len(),
    decreases s.len() - i,
{
    if i < s.len() && is_space(s[i]) {
        lemma_skip_space(s, i + 1);
    }
}

pub proof fn lemma_skip_space_back(s: Seq<char>, lo: int, j: int)
    requires
        0 <= lo <= j <= s.len(),
    ensures
        lo <= skip_space_back(s, lo, j) <= j,
    decreases j - lo,
{
    if lo < j && is_space(s[j - 1]) {
        lemma_skip_space_back(s, lo, j - 1);
    }
}

/// Where `skip_space` stops: at the end, or on a character that is not white
/// space.
pub proof fn lemma_skip_space_stops(s: Seq<char>, i: int)
    requires
        0 <= i <= s.len(),
    ensures
        skip_space(s, i) == s.len() || !is_space(s[skip_space(s, i)]),
    decreases s.len() - i,
{
    if i < s.len() && is_space(s[i]) {
        lemma_skip_space_stops(s, i + 1);
    }
}

/// Where `skip_space_back` stops: at `lo`, or after a character that is not
/// white space.
pub proof fn lemma_skip_space_back_stops(s: Seq<char>, lo: int, j: int)
    requires
        0 <= lo <= j <= s.len(),
    ensures
        skip_space_back(s, lo, j) == lo || !is_space(s[skip_space_back(s, lo, j) - 1]),
    decreases j - lo,
{
    if lo < j && is_space(s[j - 1]) {
        lemma_skip_space_back_stops(s, lo, j - 1);
    }
}

/// The trimmed text is a piece of the text, and is empty or starts and ends
/// with a character that is not white space.
pub proof fn lemma_trim_shape(s: Seq<char>)
    ensures
        exists|lo: int, hi: int| 0 <= lo <= hi <= s.len() && trim(s) == s.subrange(lo, hi),
        trim(s).len() == 0 || (!is_space(trim(s)[0]) && !is_space(trim(s).last())),
{
    let lo = skip_space(s, 0);
    lemma_skip_space(s, 0);
    lemma_skip_space_stops(s, 0);
    let hi = skip_space_back(s, lo, s.len() as int);
    lemma_skip_space_back(s, lo, s.len() as int);
    lemma_skip_space_back_stops(s, lo, s.len() as int);
    assert(trim(s) == s.subrange(lo, hi));
}

/// Text that does not begin or end with white space is its own trim.
pub proof fn lemma_trim_fixed(t: Seq<char>)
    requires
        t.len() == 0 || (!is_space(t[0]) && !is_space(t.last())),
    ensures
        trim(t) == t,
{
    assert(skip_space(t, 0) == 0);
    assert(skip_space_back(t, 0, t.len() as int) == t.len());
    assert(t.subrange(0, t.len() as int) =~= t);
}

/// Trimming twice is trimming once.
pub proof fn lemma_trim_idempotent(s: Seq<char>)
    ensures
        trim(trim(s)) == trim(s),
{
    lemma_trim_shape(s);
    lemma_trim_fixed(trim(s));
}

/// The bounds `(lo, hi)` of `v` without surrounding white space.
pub fn trim_bounds(v: &Vec<char>) -> (r: (usize, usize))
    ensures
        r.0 == skip_space(v@, 0),
        r.1 == skip_space_back(v@, r.0 as int, v@.len() as int),
        r.0 <= r.1 <= v.len(),
{
    let mut lo: usize = 0;
    while lo < v.len() && is_whitespace(v[lo])
        invariant
            lo <= v.len(),
            skip_space(v@, lo as int) == skip_space(v@, 0),
        decreases v.len() - lo,
    {
        lo = lo + 1;
    }
    let mut hi: usize = v.len();
    while hi > lo && is_whitespace(v[hi - 1])
        invariant
            lo <= hi <= v.len(),
            skip_space_back(v@, lo as int, hi as int) == skip_space_back(
                v@,
                lo as int,
                v@.len() as int,
            ),
        decreases hi - lo,
    {
        hi = hi - 1;
    }
    (lo, hi)
}

/// `s` trimmed of surrounding white space.
pub fn trimmed(s: &str) -> (r: String)
    ensures
        r@ == trim(s@),
{
    let v = chars_of(s);
    let (lo, hi) = trim_bounds(&v);
    string_of_range(&v, lo, hi)
}

/// Whether `s` starts with `p`.
pub open spec fn starts_with(s: Seq<char>, p: Seq<char>) -> bool {
    p.len() <= s.len() && s.subrange(0, p.len() as int) == p
}

/// Whether `s` ends with `p`.
pub open spec fn ends_with(s: Seq<char>, p: Seq<char>) -> bool {
    p.len() <= s.len() && s.subrange(s.len() - p.len(), s.len() as int) == p
}

/// Whether `p` occurs in `s` at index `i`.
pub open spec fn occurs_at(s: Seq<char>, p: Seq<char>, i: int) -> bool {
    0 <= i && i + p.len() <= s.len() && s.subrange(i, i + p.len()) == p
}

/// Whether `p` occurs somewhere in `s`.
pub open spec fn contains(s: Seq<char>, p: Seq<char>) -> bool {
    exists|i: int| occurs_at(s, p, i)
}

/// Whether `v[at..]` starts with `p`.
pub fn occurs_at_exec(v: &Vec<char>, p: &Vec<char>, at: usize) -> (r: bool)
    ensures
        r == occurs_at(v@, p@, at as int),
{
    if at > v.len() || p.len() > v.len() - at {
        return false;
    }
    let mut k: usize = 0;
    while k < p.len()
        invariant
            at + p.len() <= v.len(),
            k <= p.len(),
            forall|j: int| 0 <= j < k ==> v@[at + j] == p@[j],
        decreases p.len() - k,
    {
        if v[at + k] != p[k] {
            assert(v@.subrange(at as int, at + p.len())[k as int] != p@[k as int]);
            return false;
        }
        k = k + 1;
    }
    assert(v@.subrange(at as int, at + p.len()) =~= p@);
    true
}

/// Whether `v` starts with `p`.
pub fn starts_with_exec(v: &Vec<char>, p: &str) -> (r: bool)
    ensures
        r == starts_with(v@, p@),
{
    let pv = chars_of(p);
    occurs_at_exec(v, &pv, 0)
}

/// Whether `v` ends with `p`.
pub fn ends_with_exec(v: &Vec<char>, p: &str) -> (r: bool)
    ensures
        r == ends_with(v@, p@),
{
    let pv = chars_of(p);
    if pv.len() > v.len() {
        return false;
    }
    occurs_at_exec(v, &pv, v.len() - pv.len())
}

/// Whether `p` occurs in `v`.
pub fn contains_exec(v: &Vec<char>, p: &str) -> (r: bool)
    ensures
        r == contains(v@, p@),
{
    let pv = chars_of(p);
    if pv.len() == 0 {
        assert(v@.subrange(0, 0) =~= p@);
        assert(occurs_at(v@, p@, 0));
        return true;
    }
    if pv.len() > v.len() {
        return false;
    }
    let last = v.len() - pv.len();
    let mut i: usize = 0;
    while i <= last
        invariant
            last + pv.len() == v.len(),
            pv.len() > 0,
            i <= last + 1,
            pv@ == p@,
            forall|j: int| 0 <= j < i ==> !occurs_at(v@, p@, j),
        decreases last + 1 - i,
    {
        if occurs_at_exec(v, &pv, i) {
            return true;
        }
        i = i + 1;
    }
    assert forall|j: int| !occurs_at(v@, p@, j) by {
        if 0 <= j && j + p@.len() <= v@.len() {
            assert(j < i);
        }
    }
    false
}

/// Whether the string `s` contains the character `c`.
pub fn has_char(v: &Vec<char>, c: char) -> (r: bool)
    ensures
        r == v@.contains(c),
{
    let mut i: usize = 0;
    while i < v.len()
        invariant
            i <= v.len(),
            forall|j: int| 0 <= j < i ==> v@[j] != c,
        decreases v.len() - i,
    {
        if v[i] == c {
            return true;
        }
        i = i + 1;
    }
    false
}

/// ASCII lower case of one character, as `char::to_ascii_lowercase` gives it.
pub open spec fn ascii_lower(c: char) -> char {
    if 'A' <= c && c <= 'Z' {
        ((c as u8) + 32) as char
    } else {
        c
    }
}

/// ASCII upper case of one character, as `char::to_ascii_uppercase` gives it.
pub open spec fn ascii_upper(c: char) -> char {
    if 'a' <= c && c <= 'z' {
        ((c as u8) - 32) as char
    } else {
        c
    }
}

/// ASCII lower case of a sequence, as `str::to_ascii_lowercase` gives it.
pub open spec fn lower(s: Seq<char>) -> Seq<char> {
    s.map_values(|c: char| ascii_lower(c))
}

/// ASCII upper case of a sequence.
pub open spec fn upper(s: Seq<char>) -> Seq<char> {
    s.map_values(|c: char| ascii_upper(c))
}

pub fn to_ascii_lower(c: char) -> (r: char)
    ensures
        r == ascii_lower(c),
{
    if 'A' <= c && c <= 'Z' {
        ((c as u8) + 32) as char
    } else {
        c
    }
}

pub fn to_ascii_upper(c: char) -> (r: char)
    ensures
        r == ascii_upper(c),
{
    if 'a' <= c && c <= 'z' {
        ((c as u8) - 32) as char
    } else {
        c
    }
}

/// `v[lo..hi]` in ASCII lower case.
pub fn lower_range(v: &Vec<char>, lo: usize, hi: usize) -> (r: String)
    requires
        lo <= hi <= v.len(),
    ensures
        r@ == lower(v@.subrange(lo as int, hi as int)),
{
    let mut r = String::new();
    let mut i = lo;
    while i < hi
        invariant
            lo <= i <= hi <= v.len(),
            r@ == lower(v@.subrange(lo as int, i as int)),
        decreases hi - i,
    {
        let c = to_ascii_lower(v[i]);
        push_char(&mut r, c);
        i = i + 1;
        assert(lower(v@.subrange(lo as int, i as int)) =~= lower(
            v@.subrange(lo as int, i - 1),
        ).push(c));
    }
    r
}


/// Unicode `Uppercase`, the property that `char::is_uppercase` tests.
pub uninterp spec fn is_upper(c: char) -> bool;

/// `char::is_uppercase`.
#[verifier::external_body]
pub(crate) fn is_uppercase(c: char) -> (r: bool)
    ensures
        r == is_upper(c),
{
    c.is_uppercase()
}

/// Whether `s` holds `p`.
pub fn str_contains(s: &str, p: &str) -> (r: bool)
    ensures
        r == contains(s@, p@),
{
    let v = chars_of(s);
    contains_exec(&v, p)
}

/// Whether `s` starts with `p`.
pub fn str_starts_with(s: &str, p: &str) -> (r: bool)
    ensures
        r == starts_with(s@, p@),
{
    let v = chars_of(s);
    starts_with_exec(&v, p)
}

/// Whether `s` ends with `p`.
pub fn str_ends_with(s: &str, p: &str) -> (r: bool)
    ensures
        r == ends_with(s@, p@),
{
    let v = chars_of(s);
    ends_with_exec(&v, p)
}

/// `s` with every leading `p` removed, as `str::trim_start_matches` gives it.
pub open spec fn strip_prefix_all(s: Seq<char>, p: Seq<char>) -> Seq<char>
    decreases s.len(),
{
    if p.len() > 0 && starts_with(s, p) {
        strip_prefix_all(s.subrange(p.len() as int, s.len() as int), p)
    } else {
        s
    }
}

/// `s` with every trailing `p` removed, as `str::trim_end_matches` gives it.
pub open spec fn strip_suffix_all(s: Seq<char>, p: Seq<char>) -> Seq<char>
    decreases s.len(),
{
    if p.len() > 0 && ends_with(s, p) {
        strip_suffix_all(s.subrange(0, s.len() - p.len()), p)
    } else {
        s
    }
}

/// `s` without leading and trailing `c`, as `str::trim_matches` gives it.
pub open spec fn trim_char(s: Seq<char>, c: char) -> Seq<char> {
    strip_suffix_all(strip_prefix_all(s, seq![c]), seq![c])
}

/// The bounds of `v` with every leading `p` removed.
fn strip_prefix_bound(v: &Vec<char>, p: &str) -> (r: usize)
    ensures
        r <= v@.len(),
        v@.subrange(r as int, v@.len() as int) == strip_prefix_all(v@, p@),
{
    let pv = chars_of(p);
    let mut lo: usize = 0;
    assert(v@.subrange(0, v@.len() as int) =~= v@);
    if pv.len() == 0 {
        return 0;
    }
    while pv.len() <= v.len() - lo && occurs_at_exec(v, &pv, lo)
        invariant
            pv@ == p@,
            pv@.len() > 0,
            lo <= v@.len(),
            strip_prefix_all(v@.subrange(lo as int, v@.len() as int), p@) == strip_prefix_all(v@, p@),
        decreases v.len() - lo,
    {
        let ghost rest = v@.subrange(lo as int, v@.len() as int);
        assert(rest.subrange(0, p@.len() as int) =~= v@.subrange(lo as int, lo + p@.len()));
        assert(rest.subrange(p@.len() as int, rest.len() as int) =~= v@.subrange(lo + p@.len(), v@.len() as int));
        lo = lo + pv.len();
    }
    proof {
        let rest = v@.subrange(lo as int, v@.len() as int);
        if p@.len() <= rest.len() && rest.subrange(0, p@.len() as int) == p@ {
            assert(rest.subrange(0, p@.len() as int) =~= v@.subrange(lo as int, lo + p@.len()));
            assert(occurs_at(v@, p@, lo as int));
        }
    }
    lo
}

/// The end of `v[..hi]` with every trailing `p` removed.
fn strip_suffix_bound(v: &Vec<char>, lo: usize, p: &str) -> (r: usize)
    requires
        lo <= v@.len(),
    ensures
        lo <= r <= v@.len(),
        v@.subrange(lo as int, r as int) == strip_suffix_all(v@.subrange(lo as int, v@.len() as int), p@),
{
    let pv = chars_of(p);
    let mut hi: usize = v.len();
    if pv.len() == 0 {
        return hi;
    }
    while hi - lo >= pv.len() && occurs_at_exec(v, &pv, hi - pv.len())
        invariant
            pv@ == p@,
            pv@.len() > 0,
            lo <= hi <= v@.len(),
            strip_suffix_all(v@.subrange(lo as int, hi as int), p@) == strip_suffix_all(
                v@.subrange(lo as int, v@.len() as int),
                p@,
            ),
        decreases hi,
    {
        let ghost part = v@.subrange(lo as int, hi as int);
        assert(part.subrange(part.len() - p@.len(), part.len() as int) =~= v@.subrange(hi - p@.len(), hi as int));
        assert(part.subrange(0, part.len() - p@.len()) =~= v@.subrange(lo as int, hi - p@.len()));
        hi = hi - pv.len();
    }
    proof {
        let part = v@.subrange(lo as int, hi as int);
        if p@.len() <= part.len() && part.subrange(part.len() - p@.len(), part.len() as int) == p@ {
            assert(part.subrange(part.len() - p@.len(), part.len() as int) =~= v@.subrange(hi - p@.len(), hi as int));
            assert(occurs_at(v@, p@, hi - p@.len()));
        }
    }
    hi
}

/// `s` with every leading `p` removed.
pub fn trim_start_matches(s: &str, p: &str) -> (r: String)
    ensures
        r@ == strip_prefix_all(s@, p@),
{
    let v = chars_of(s);
    let lo = strip_prefix_bound(&v, p);
    string_of_range(&v, lo, v.len())
}

/// `s` with every trailing `p` removed.
pub fn trim_end_matches(s: &str, p: &str) -> (r: String)
    ensures
        r@ == strip_suffix_all(s@, p@),
{
    let v = chars_of(s);
    assert(v@.subrange(0, v@.len() as int) =~= v@);
    let hi = strip_suffix_bound(&v, 0, p);
    string_of_range(&v, 0, hi)
}

/// `s` without leading and trailing `c`.
pub fn trim_matches(s: &str, c: char) -> (r: String)
    ensures
        r@ == trim_char(s@, c),
{
    let mut cs = String::new();
    push_char(&mut cs, c);
    assert(cs@ =~= seq![c]);
    let head = trim_start_matches(s, cs.as_str());
    trim_end_matches(head.as_str(), cs.as_str())
}

/// The first index at or after `k` where `p` occurs in `s`.
pub open spec fn find_from(s: Seq<char>, p: Seq<char>, k: int) -> Option<int>
    decreases s.len() + 1 - k,
{
    if k < 0 || k + p.len() > s.len() {
        None
    } else if occurs_at(s, p, k) {
        Some(k)
    } else {
        find_from(s, p, k + 1)
    }
}

/// `str::find`: the first index where `p` occurs in `s`.
pub open spec fn find(s: Seq<char>, p: Seq<char>) -> Option<int> {
    find_from(s, p, 0)
}

/// The last index at or before `k` where `p` occurs in `s`.
pub open spec fn rfind_from(s: Seq<char>, p: Seq<char>, k: int) -> Option<int>
    decreases k + 1,
{
    if k < 0 {
        None
    } else if occurs_at(s, p, k) {
        Some(k)
    } else {
        rfind_from(s, p, k - 1)
    }
}

/// `str::rfind`: the last index where `p` occurs in `s`.
pub open spec fn rfind(s: Seq<char>, p: Seq<char>) -> Option<int> {
    rfind_from(s, p, s.len() - p.len())
}

/// Where the last segment of a path starts: just past its last `/`, or 0.
pub open spec fn segment_start(p: Seq<char>) -> int {
    match rfind(p, seq!['/']) {
        Some(k) => k + 1,
        None => 0,
    }
}

/// The text after the last `/` of a path.
pub open spec fn last_segment(p: Seq<char>) -> Seq<char> {
    p.subrange(segment_start(p), p.len() as int)
}

/// Whether a path segment is a plain name: neither empty, `.` nor `..`, and
/// without `\` (a separator on some systems).
pub open spec fn plain_name(n: Seq<char>) -> bool {
    &&& n.len() > 0
    &&& n != seq!['.']
    &&& n != seq!['.', '.']
    &&& forall|i: int| 0 <= i < n.len() ==> #[trigger] n[i] != '\\'
}

/// Whether a path is relative, made of plain names without dots or `\`,
/// each separated from the next by one `/`.
pub open spec fn plain_dirs(d: Seq<char>) -> bool {
    &&& d.len() > 0
    &&& forall|i: int| 0 <= i < d.len() ==> #[trigger] d[i] != '.' && d[i] != '\\'
    &&& forall|i: int|
        0 <= i < d.len() && #[trigger] d[i] == '/' ==> 0 < i < d.len() - 1 && d[i + 1] != '/'
}

/// The extension of a plain file name: what follows its last `.`, where
/// that `.` is not the name's first character.
pub open spec fn name_extension(n: Seq<char>) -> Option<Seq<char>> {
    match rfind(n, seq!['.']) {
        Some(k) => if k > 0 {
            Some(n.subrange(k + 1, n.len() as int))
        } else {
            None
        },
        None => None,
    }
}

/// The first index where `p` occurs in `v`.
pub fn find_exec(v: &Vec<char>, p: &Vec<char>) -> (r: Option<usize>)
    ensures
        match r {
            Some(k) => find(v@, p@) == Some(k as int),
            None => find(v@, p@) is None,
        },
{
    if p.len() > v.len() {
        return None;
    }
    if p.len() == 0 {
        assert(v@.subrange(0, 0) =~= p@);
        return Some(0);
    }
    let mut k: usize = 0;
    while k <= v.len() - p.len()
        invariant
            1 <= p@.len() <= v@.len(),
            k <= v@.len() - p@.len() + 1,
            find_from(v@, p@, k as int) == find(v@, p@),
        decreases v.len() - k,
    {
        if occurs_at_exec(v, p, k) {
            return Some(k);
        }
        k = k + 1;
    }
    None
}

/// The last index where `p` occurs in `v`.
pub fn rfind_exec(v: &Vec<char>, p: &Vec<char>) -> (r: Option<usize>)
    ensures
        match r {
            Some(k) => rfind(v@, p@) == Some(k as int),
            None => rfind(v@, p@) is None,
        },
{
    if p.len() > v.len() {
        return None;
    }
    let mut k: usize = v.len() - p.len();
    loop
        invariant
            p@.len() <= v@.len(),
            k + p@.len() <= v@.len(),
            rfind_from(v@, p@, k as int) == rfind(v@, p@),
        decreases k,
    {
        if occurs_at_exec(v, p, k) {
            return Some(k);
        }
        if k == 0 {
            assert(rfind_from(v@, p@, -1) is None);
            return None;
        }
        k = k - 1;
    }
}

/// The part of `s` before the first `p` (all of `s` where there is none):
/// what `s.split(p).next()` gives.
pub open spec fn before_sep(s: Seq<char>, p: Seq<char>) -> Seq<char> {
    match find(s, p) {
        Some(k) => s.subrange(0, k),
        None => s,
    }
}

/// The part of `s` after the first `p`, where there is one.
pub open spec fn after_sep(s: Seq<char>, p: Seq<char>) -> Option<Seq<char>> {
    match find(s, p) {
        Some(k) => Some(s.subrange(k + p.len(), s.len() as int)),
        None => None,
    }
}

/// The second part of `s` split at `p`: what `s.split(p).nth(1)` gives.
pub open spec fn second_part(s: Seq<char>, p: Seq<char>) -> Option<Seq<char>> {
    match after_sep(s, p) {
        Some(rest) => Some(before_sep(rest, p)),
        None => None,
    }
}

pub proof fn lemma_find_bounds(s: Seq<char>, p: Seq<char>, k: int)
    requires
        find_from(s, p, k) is Some,
    ensures
        k <= find_from(s, p, k)->0,
        find_from(s, p, k)->0 + p.len() <= s.len(),
    decreases s.len() + 1 - k,
{
    if !(k < 0 || k + p.len() > s.len()) && !occurs_at(s, p, k) {
        lemma_find_bounds(s, p, k + 1);
    }
}

/// The part of `s` before the first `p`, and the part after it where there
/// is one.
pub fn split_once_at(s: &str, p: &str) -> (r: (String, Option<String>))
    ensures
        r.0@ == before_sep(s@, p@),
        match r.1 {
            Some(a) => after_sep(s@, p@) == Some(a@),
            None => after_sep(s@, p@) is None,
        },
{
    let v = chars_of(s);
    let pv = chars_of(p);
    match find_exec(&v, &pv) {
        Some(k) => {
            proof {
                lemma_find_bounds(v@, pv@, 0);
                assert(find_from(v@, pv@, 0) == Some(k as int));
                assert(k + pv@.len() <= v@.len());
            }
            let head = string_of_range(&v, 0, k);
            let vl = v.len();
            let tail = string_of_range(&v, k + pv.len(), vl);
            (head, Some(tail))
        },
        None => (owned(s), None),
    }
}

/// The first part of `s` split at `p`.
pub fn first_part(s: &str, p: &str) -> (r: String)
    ensures
        r@ == before_sep(s@, p@),
{
    split_once_at(s, p).0
}

/// The second part of `s` split at `p`, where there is one.
pub fn nth_part_one(s: &str, p: &str) -> (r: Option<String>)
    ensures
        match r {
            Some(a) => second_part(s@, p@) == Some(a@),
            None => second_part(s@, p@) is None,
        },
{
    match split_once_at(s, p).1 {
        Some(rest) => Some(first_part(rest.as_str(), p)),
        None => None,
    }
}

/// `s` without leading white space, as `str::trim_start` gives it.
pub open spec fn trim_start(s: Seq<char>) -> Seq<char> {
    s.subrange(skip_space(s, 0), s.len() as int)
}

pub fn trimmed_start(s: &str) -> (r: String)
    ensures
        r@ == trim_start(s@),
{
    let v = chars_of(s);
    let (lo, _hi) = trim_bounds(&v);
    string_of_range(&v, lo, v.len())
}

/// `s` without one trailing `p`, where it ends with one.
pub open spec fn strip_suffix_once(s: Seq<char>, p: Seq<char>) -> Seq<char> {
    if ends_with(s, p) {
        s.subrange(0, s.len() - p.len())
    } else {
        s
    }
}

pub fn strip_suffix_or_keep(s: &str, p: &str) -> (r: String)
    ensures
        r@ == strip_suffix_once(s@, p@),
{
    let v = chars_of(s);
    let pv = chars_of(p);
    if ends_with_exec(&v, p) {
        string_of_range(&v, 0, v.len() - pv.len())
    } else {
        owned(s)
    }
}

/// `s` with every `from` replaced by `to`, left to right, as `str::replace`
/// gives it for a pattern that is not empty.
pub open spec fn replace_all(s: Seq<char>, from: Seq<char>, to: Seq<char>) -> Seq<char>
    decreases s.len(),
{
    if from.len() == 0 {
        s
    } else {
        match find(s, from) {
            Some(k) => {
                proof {
                    lemma_find_bounds(s, from, 0);
                }
                s.subrange(0, k) + to + replace_all(s.subrange(k + from.len(), s.len() as int), from, to)
            },
            None => s,
        }
    }
}

/// `s` with every `from` replaced by `to`.
pub fn replace_text(s: &str, from: &str, to: &str) -> (r: String)
    requires
        from@.len() > 0,
    ensures
        r@ == replace_all(s@, from@, to@),
{
    let v = chars_of(s);
    let pv = chars_of(from);
    let mut out = String::new();
    let mut rest: Vec<char> = v;
    let ghost whole = s@;
    assert(out@ + replace_all(rest@, from@, to@) =~= replace_all(whole, from@, to@));
    loop
        invariant
            pv@ == from@,
            whole == s@,
            from@.len() > 0,
            out@ + replace_all(rest@, from@, to@) == replace_all(whole, from@, to@),
        decreases rest@.len(),
    {
        match find_exec(&rest, &pv) {
            Some(k) => {
                proof {
                    lemma_find_bounds(rest@, pv@, 0);
                    assert(find_from(rest@, pv@, 0) == Some(k as int));
                }
                let ghost before = out@;
                let ghost r0 = rest@;
                let rl = rest.len();
                let head = string_of_range(&rest, 0, k);
                push_str(&mut out, head.as_str());
                push_str(&mut out, to);
                let mut tail: Vec<char> = Vec::new();
                let mut m = k + pv.len();
                while m < rl
                    invariant
                        rl == rest@.len(),
                        k + pv@.len() <= m <= rl,
                        tail@ == rest@.subrange(k + pv@.len(), m as int),
                    decreases rl - m,
                {
                    tail.push(rest[m]);
                    m = m + 1;
                }
                assert(out@ =~= before + r0.subrange(0, k as int) + to@);
                rest = tail;
                assert(before + replace_all(r0, from@, to@) =~= out@ + replace_all(rest@, from@, to@));
            },
            None => {
                let tail = string_of_range(&rest, 0, rest.len());
                assert(rest@.subrange(0, rest@.len() as int) =~= rest@);
                push_str(&mut out, tail.as_str());
                return out;
            },
        }
    }
}

/// The texts joined with `sep`.
pub open spec fn join_texts(items: Seq<Seq<char>>, sep: Seq<char>) -> Seq<char>
    decreases items.len(),
{
    if items.len() == 0 {
        Seq::empty()
    } else if items.len() == 1 {
        items[0]
    } else {
        join_texts(items.drop_last(), sep) + sep + items.last()
    }
}

/// Joining one more item adds the separator and the item.
pub proof fn lemma_join_texts_step(items: Seq<Seq<char>>, sep: Seq<char>, k: int)
    requires
        0 <= k < items.len(),
    ensures
        join_texts(items.take(k + 1), sep) == if k == 0 {
            items[0]
        } else {
            join_texts(items.take(k), sep) + sep + items[k]
        },
{
    assert(items.take(k + 1).drop_last() =~= items.take(k));
    assert(items.take(k + 1).last() == items[k]);
    if k == 0 {
        assert(items.take(1)[0] == items[0]);
    }
}

} // verus!
