//! Character-level text primitives shared by the search engine and the crawler
//! front end: the parts of `str` behaviour the rest of the library is specified
//! against, stated over `Seq<char>`.
use vstd::prelude::*;

verus! {

// ---------------------------------------------------------------------------
// Unicode properties that only std's tables decide.
// ---------------------------------------------------------------------------

/// `char::is_whitespace`: the Unicode `White_Space` property.
pub uninterp spec fn char_is_whitespace(c: char) -> bool;

/// `char::is_alphanumeric`: the Unicode `Alphabetic` or `Numeric` property.
pub uninterp spec fn char_is_alphanumeric(c: char) -> bool;

/// `str::to_lowercase`: the full Unicode lowercase mapping of a whole string.
pub uninterp spec fn lowercase(s: Seq<char>) -> Seq<char>;

/// Calls `char::is_whitespace`; the result is the Unicode `White_Space`
/// property of `c`, which this contract only names.
#[verifier::external_body]
pub(crate) fn is_whitespace(c: char) -> (r: bool)
    ensures
        r == char_is_whitespace(c),
{
    c.is_whitespace()
}

/// Calls `char::is_alphanumeric`; the result is named, not spelled out.
#[verifier::external_body]
pub(crate) fn is_alphanumeric(c: char) -> (r: bool)
    ensures
        r == char_is_alphanumeric(c),
{
    c.is_alphanumeric()
}

/// Calls `str::to_lowercase`; the lowercased text is a function of the input
/// alone, and this contract names it.
#[verifier::external_body]
pub(crate) fn to_lowercase(s: &str) -> (r: String)
    ensures
        r@ == lowercase(s@),
{
    s.to_lowercase()
}

/// Calls `String::push`.
#[verifier::external_body]
pub(crate) fn push_char(s: &mut String, c: char)
    ensures
        final(s)@ == old(s)@.push(c),
{
    s.push(c);
}

// ---------------------------------------------------------------------------
// Decimal rendering of integers.
// ---------------------------------------------------------------------------

pub open spec fn digit_char(d: nat) -> char
    recommends
        d < 10,
{
    (48 + d) as char
}

/// The decimal rendering of `n`: no sign, no leading zeros.
pub open spec fn decimal(n: nat) -> Seq<char>
    decreases n,
{
    if n < 10 {
        seq![digit_char(n)]
    } else {
        decimal(n / 10).push(digit_char(n % 10))
    }
}

fn digit_exec(d: u64) -> (c: char)
    requires
        d < 10,
    ensures
        c == digit_char(d as nat),
{
    match d {
        0 => '0',
        1 => '1',
        2 => '2',
        3 => '3',
        4 => '4',
        5 => '5',
        6 => '6',
        7 => '7',
        8 => '8',
        _ => '9',
    }
}

/// The decimal rendering of `n`, as `u64::to_string` writes it.
pub(crate) fn u64_to_decimal(n: u64) -> (r: String)
    ensures
        r@ == decimal(n as nat),
    decreases n,
{
    if n < 10 {
        let mut s = String::new();
        push_char(&mut s, digit_exec(n));
        assert(s@ =~= decimal(n as nat));
        s
    } else {
        let mut s = u64_to_decimal(n / 10);
        push_char(&mut s, digit_exec(n % 10));
        s
    }
}

// ---------------------------------------------------------------------------
// Conversions between `str` and `Vec<char>`.
// ---------------------------------------------------------------------------

pub fn chars_of(s: &str) -> (v: Vec<char>)
    ensures
        v@ == s@,
{
    broadcast use vstd::string::group_string_axioms;

    let mut v: Vec<char> = Vec::new();
    for c in it: s.chars()
        invariant
            v@ == it.seq().take(it.index() as int),
    {
        v.push(c);
    }
    v
}

/// The characters `v[lo..hi]` appended to `out`.
pub fn push_range(out: &mut String, v: &Vec<char>, lo: usize, hi: usize)
    requires
        lo <= hi <= v.len(),
    ensures
        final(out)@ == old(out)@ + v@.subrange(lo as int, hi as int),
{
    let mut i = lo;
    while i < hi
        invariant
            lo <= i <= hi <= v.len(),
            out@ == old(out)@ + v@.subrange(lo as int, i as int),
        decreases hi - i,
    {
        push_char(out, v[i]);
        assert(v@.subrange(lo as int, i + 1) =~= v@.subrange(lo as int, i as int).push(v@[i as int]));
        i = i + 1;
    }
}

pub fn string_of(v: &Vec<char>) -> (s: String)
    ensures
        s@ == v@,
{
    let mut s = String::new();
    push_range(&mut s, v, 0, v.len());
    assert(v@.subrange(0, v@.len() as int) =~= v@);
    s
}

pub fn push_chars(out: &mut String, v: &Vec<char>)
    ensures
        final(out)@ == old(out)@ + v@,
{
    push_range(out, v, 0, v.len());
    assert(v@.subrange(0, v@.len() as int) =~= v@);
}

/// Views of a vector of strings, one `Seq<char>` each.
pub open spec fn views(v: Seq<String>) -> Seq<Seq<char>> {
    v.map_values(|s: String| s@)
}

// ---------------------------------------------------------------------------
// Searching in character sequences.
// ---------------------------------------------------------------------------

/// `t` occurs in `s` starting at position `i`.
pub open spec fn matches_at(s: Seq<char>, t: Seq<char>, i: int) -> bool {
    0 <= i && i + t.len() <= s.len() && s.subrange(i, i + t.len()) == t
}

/// The first position at or after `i` where `t` occurs in `s`.
pub open spec fn find_from(s: Seq<char>, t: Seq<char>, i: nat) -> Option<nat>
    decreases s.len() + 1 - i,
{
    if i > s.len() {
        None
    } else if matches_at(s, t, i as int) {
        Some(i)
    } else {
        find_from(s, t, i + 1)
    }
}

/// The first position where `t` occurs in `s`, as `str::find` counts in characters.
pub open spec fn find(s: Seq<char>, t: Seq<char>) -> Option<nat> {
    find_from(s, t, 0)
}

pub open spec fn contains(s: Seq<char>, t: Seq<char>) -> bool {
    exists|i: int| matches_at(s, t, i)
}

pub open spec fn starts_with(s: Seq<char>, t: Seq<char>) -> bool {
    matches_at(s, t, 0)
}

pub open spec fn ends_with(s: Seq<char>, t: Seq<char>) -> bool {
    t.len() <= s.len() && matches_at(s, t, s.len() - t.len())
}

/// `find_from` returns the least matching position, or `None` when there is none.
pub proof fn lemma_find_from(s: Seq<char>, t: Seq<char>, i: nat)
    ensures
        match find_from(s, t, i) {
            Some(k) => i <= k && matches_at(s, t, k as int) && forall|j: int|
                i <= j < k ==> !matches_at(s, t, j),
            None => forall|j: int| i <= j ==> !matches_at(s, t, j),
        },
    decreases s.len() + 1 - i,
{
    if i > s.len() {
    } else if matches_at(s, t, i as int) {
    } else {
        lemma_find_from(s, t, i + 1);
    }
}

pub proof fn lemma_find_is_some_iff_contains(s: Seq<char>, t: Seq<char>)
    ensures
        find(s, t) is Some <==> contains(s, t),
{
    lemma_find_from(s, t, 0);
    if find(s, t) is Some {
        assert(matches_at(s, t, find(s, t)->0 as int));
    }
}

pub fn matches_at_exec(s: &Vec<char>, t: &Vec<char>, i: usize) -> (r: bool)
    ensures
        r == matches_at(s@, t@, i as int),
{
    if i > s.len() || t.len() > s.len() - i {
        return false;
    }
    let mut k: usize = 0;
    while k < t.len()
        invariant
            i + t.len() <= s.len(),
            k <= t.len(),
            forall|j: int| 0 <= j < k ==> s@[i + j] == t@[j],
        decreases t.len() - k,
    {
        if s[i + k] != t[k] {
            assert(s@.subrange(i as int, i + t.len())[k as int] != t@[k as int]);
            return false;
        }
        k = k + 1;
    }
    assert(s@.subrange(i as int, i + t.len()) =~= t@);
    true
}

pub fn find_exec(s: &Vec<char>, t: &Vec<char>) -> (r: Option<usize>)
    ensures
        r == (match find(s@, t@) {
            Some(k) => Some(k as usize),
            None => None::<usize>,
        }),
        find(s@, t@) matches Some(k) ==> k + t@.len() <= s@.len(),
{
    proof {
        lemma_find_from(s@, t@, 0);
    }
    let mut i: usize = 0;
    while i < s.len()
        invariant
            i <= s.len(),
            forall|j: int| 0 <= j < i ==> !matches_at(s@, t@, j),
            find(s@, t@) == find_from(s@, t@, 0),
        decreases s.len() - i,
    {
        if matches_at_exec(s, t, i) {
            proof {
                lemma_find_from(s@, t@, 0);
            }
            return Some(i);
        }
        i = i + 1;
    }
    proof {
        lemma_find_from(s@, t@, 0);
    }
    if matches_at_exec(s, t, i) {
        return Some(i);
    }
    proof {
        if find(s@, t@) is Some {
            let k = find(s@, t@)->0;
            assert(matches_at(s@, t@, k as int));
        }
    }
    None
}

pub fn contains_exec(s: &Vec<char>, t: &Vec<char>) -> (r: bool)
    ensures
        r == contains(s@, t@),
{
    proof {
        lemma_find_is_some_iff_contains(s@, t@);
    }
    find_exec(s, t).is_some()
}

pub fn starts_with_exec(s: &Vec<char>, t: &Vec<char>) -> (r: bool)
    ensures
        r == starts_with(s@, t@),
{
    matches_at_exec(s, t, 0)
}

pub fn ends_with_exec(s: &Vec<char>, t: &Vec<char>) -> (r: bool)
    ensures
        r == ends_with(s@, t@),
{
    if t.len() > s.len() {
        false
    } else {
        matches_at_exec(s, t, s.len() - t.len())
    }
}

// ---------------------------------------------------------------------------
// Whitespace: trimming and splitting as `str::trim` and `str::split_whitespace`.
// ---------------------------------------------------------------------------

/// The number of leading whitespace characters of `s`.
pub open spec fn leading_ws(s: Seq<char>) -> nat
    decreases s.len(),
{
    if s.len() == 0 {
        0
    } else if char_is_whitespace(s[0]) {
        1 + leading_ws(s.drop_first())
    } else {
        0
    }
}

/// The number of trailing whitespace characters of `s`.
pub open spec fn trailing_ws(s: Seq<char>) -> nat
    decreases s.len(),
{
    if s.len() == 0 {
        0
    } else if char_is_whitespace(s.last()) {
        1 + trailing_ws(s.drop_last())
    } else {
        0
    }
}

/// `s` without leading and trailing whitespace.
pub open spec fn trim(s: Seq<char>) -> Seq<char> {
    if leading_ws(s) == s.len() {
        Seq::empty()
    } else {
        s.subrange(leading_ws(s) as int, s.len() - trailing_ws(s))
    }
}

pub proof fn lemma_leading_ws(s: Seq<char>, i: int)
    requires
        0 <= i <= s.len(),
        forall|j: int| 0 <= j < i ==> char_is_whitespace(s[j]),
        i == s.len() || !char_is_whitespace(s[i]),
    ensures
        leading_ws(s) == i,
    decreases s.len(),
{
    if s.len() > 0 && i > 0 {
        assert forall|j: int| 0 <= j < i - 1 implies char_is_whitespace(s.drop_first()[j]) by {
            assert(s.drop_first()[j] == s[j + 1]);
        }
        lemma_leading_ws(s.drop_first(), i - 1);
    }
}

pub proof fn lemma_trailing_ws(s: Seq<char>, i: int)
    requires
        0 <= i <= s.len(),
        forall|j: int| s.len() - i <= j < s.len() ==> char_is_whitespace(s[j]),
        i == s.len() || !char_is_whitespace(s[s.len() - 1 - i]),
    ensures
        trailing_ws(s) == i,
    decreases s.len(),
{
    if s.len() > 0 && i > 0 {
        assert forall|j: int| s.len() - 1 - (i - 1) <= j < s.len() - 1 implies char_is_whitespace(
            s.drop_last()[j],
        ) by {
            assert(s.drop_last()[j] == s[j]);
        }
        lemma_trailing_ws(s.drop_last(), i - 1);
    }
}

pub proof fn lemma_ws_bounds(s: Seq<char>)
    ensures
        leading_ws(s) <= s.len(),
        trailing_ws(s) <= s.len(),
        leading_ws(s) < s.len() ==> leading_ws(s) + trailing_ws(s) <= s.len(),
    decreases s.len(),
{
    if s.len() > 0 {
        lemma_ws_bounds(s.drop_first());
        lemma_ws_bounds(s.drop_last());
    }
    if leading_ws(s) < s.len() {
        lemma_trailing_stops(s);
    }
}

/// When some character is not whitespace, trailing whitespace stops after it.
proof fn lemma_trailing_stops(s: Seq<char>)
    requires
        leading_ws(s) < s.len(),
    ensures
        leading_ws(s) + trailing_ws(s) <= s.len(),
    decreases s.len(),
{
    lemma_leading_ws_prop(s);
    let k = leading_ws(s) as int;
    assert(!char_is_whitespace(s[k]));
    lemma_trailing_prop(s);
    let t = trailing_ws(s) as int;
    if k + t > s.len() {
        assert(char_is_whitespace(s[k]));
    }
}

pub proof fn lemma_leading_ws_prop(s: Seq<char>)
    ensures
        leading_ws(s) <= s.len(),
        forall|j: int| 0 <= j < leading_ws(s) ==> char_is_whitespace(s[j]),
        leading_ws(s) < s.len() ==> !char_is_whitespace(s[leading_ws(s) as int]),
    decreases s.len(),
{
    if s.len() > 0 && char_is_whitespace(s[0]) {
        lemma_leading_ws_prop(s.drop_first());
        assert forall|j: int| 0 <= j < leading_ws(s) implies char_is_whitespace(s[j]) by {
            if j > 0 {
                assert(s[j] == s.drop_first()[j - 1]);
            }
        }
        if leading_ws(s) < s.len() {
            assert(s[leading_ws(s) as int] == s.drop_first()[leading_ws(s) - 1]);
        }
    }
}

pub proof fn lemma_trailing_prop(s: Seq<char>)
    ensures
        trailing_ws(s) <= s.len(),
        forall|j: int| s.len() - trailing_ws(s) <= j < s.len() ==> char_is_whitespace(s[j]),
        trailing_ws(s) < s.len() ==> !char_is_whitespace(s[s.len() - 1 - trailing_ws(s)]),
    decreases s.len(),
{
    if s.len() > 0 && char_is_whitespace(s.last()) {
        lemma_trailing_prop(s.drop_last());
        assert forall|j: int| s.len() - trailing_ws(s) <= j < s.len() implies char_is_whitespace(
            s[j],
        ) by {
            if j < s.len() - 1 {
                assert(s[j] == s.drop_last()[j]);
            }
        }
        if trailing_ws(s) < s.len() {
            assert(s[s.len() - 1 - trailing_ws(s)] == s.drop_last()[s.len() - 1 - trailing_ws(s)]);
        }
    }
}

/// The bounds `(lo, hi)` of `trim(s)` inside `s`.
pub fn trim_bounds(s: &Vec<char>) -> (r: (usize, usize))
    ensures
        r.0 <= r.1 <= s.len(),
        s@.subrange(r.0 as int, r.1 as int) == trim(s@),
{
    let mut lo: usize = 0;
    while lo < s.len() && is_whitespace(s[lo])
        invariant
            lo <= s.len(),
            forall|j: int| 0 <= j < lo ==> char_is_whitespace(s@[j]),
        decreases s.len() - lo,
    {
        lo = lo + 1;
    }
    proof {
        lemma_leading_ws(s@, lo as int);
    }
    if lo == s.len() {
        assert(s@.subrange(lo as int, lo as int) =~= Seq::<char>::empty());
        return (lo, lo);
    }
    let mut t: usize = 0;
    while t < s.len() - lo && is_whitespace(s[s.len() - 1 - t])
        invariant
            lo < s.len(),
            t <= s.len() - lo,
            forall|j: int| s.len() - t <= j < s.len() ==> char_is_whitespace(s@[j]),
        decreases s.len() - lo - t,
    {
        t = t + 1;
    }
    proof {
        if t == s.len() - lo {
            assert(!char_is_whitespace(s@[lo as int]));
            assert(char_is_whitespace(s@[s.len() - t]));
        }
        lemma_trailing_ws(s@, t as int);
    }
    (lo, s.len() - t)
}

pub fn trim_exec(s: &Vec<char>) -> (r: Vec<char>)
    ensures
        r@ == trim(s@),
{
    let (lo, hi) = trim_bounds(s);
    let mut r: Vec<char> = Vec::new();
    let mut i = lo;
    while i < hi
        invariant
            lo <= i <= hi <= s.len(),
            r@ == s@.subrange(lo as int, i as int),
        decreases hi - i,
    {
        r.push(s[i]);
        assert(s@.subrange(lo as int, i + 1) =~= s@.subrange(lo as int, i as int).push(s@[i as int]));
        i = i + 1;
    }
    r
}

/// A piece that has been collected, as a list of zero or one pieces.
pub open spec fn flush(cur: Seq<char>) -> Seq<Seq<char>> {
    if cur.len() == 0 {
        Seq::empty()
    } else {
        seq![cur]
    }
}

/// `split_whitespace` of `s[i..]`, where `cur` is the unfinished word before `i`.
pub open spec fn words_from(s: Seq<char>, i: int, cur: Seq<char>) -> Seq<Seq<char>>
    decreases s.len() - i,
{
    if i >= s.len() {
        flush(cur)
    } else if char_is_whitespace(s[i]) {
        flush(cur) + words_from(s, i + 1, Seq::empty())
    } else {
        words_from(s, i + 1, cur.push(s[i]))
    }
}

/// `str::split_whitespace`: the maximal runs of non-whitespace characters.
pub open spec fn words(s: Seq<char>) -> Seq<Seq<char>> {
    words_from(s, 0, Seq::empty())
}

pub fn split_whitespace(s: &Vec<char>) -> (r: Vec<Vec<char>>)
    ensures
        r@.map_values(|w: Vec<char>| w@) == words(s@),
{
    let mut out: Vec<Vec<char>> = Vec::new();
    let mut cur: Vec<char> = Vec::new();
    let mut i: usize = 0;
    while i < s.len()
        invariant
            i <= s.len(),
            out@.map_values(|w: Vec<char>| w@) + words_from(s@, i as int, cur@) == words(s@),
        decreases s.len() - i,
    {
        let c = s[i];
        let ghost before = out@.map_values(|w: Vec<char>| w@);
        if is_whitespace(c) {
            if cur.len() > 0 {
                let w = cur;
                out.push(w);
                cur = Vec::new();
                assert(out@.map_values(|w: Vec<char>| w@) =~= before.push(w@));
                assert(before + (flush(w@) + words_from(s@, i + 1, Seq::empty())) =~= before.push(w@)
                    + words_from(s@, i + 1, cur@));
            } else {
                assert(cur@ =~= Seq::<char>::empty());
                assert(flush(cur@) =~= Seq::<Seq<char>>::empty());
                assert(Seq::<Seq<char>>::empty() + words_from(s@, i + 1, Seq::empty())
                    =~= words_from(s@, i + 1, cur@));
            }
        } else {
            cur.push(c);
        }
        i = i + 1;
    }
    if cur.len() > 0 {
        let ghost before = out@.map_values(|w: Vec<char>| w@);
        let w = cur;
        out.push(w);
        assert(out@.map_values(|w: Vec<char>| w@) =~= before + flush(w@));
    } else {
        assert(flush(cur@) =~= Seq::<Seq<char>>::empty());
        assert(out@.map_values(|w: Vec<char>| w@) + flush(cur@) =~= out@.map_values(
            |w: Vec<char>| w@,
        ));
    }
    out
}

// ---------------------------------------------------------------------------
// Lines as `str::lines` yields them.
// ---------------------------------------------------------------------------

/// A line's text without a final carriage return.
pub open spec fn strip_cr(cur: Seq<char>) -> Seq<char> {
    if cur.len() > 0 && cur.last() == '\r' {
        cur.drop_last()
    } else {
        cur
    }
}

/// `str::lines` of `s[i..]`, where `cur` is the unfinished line before `i`: each
/// line ends at a `'\n'`, which is dropped with a `'\r'` before it; a final
/// piece without `'\n'` is a line as it stands.
pub open spec fn lines_from(s: Seq<char>, i: int, cur: Seq<char>) -> Seq<Seq<char>>
    decreases s.len() - i,
{
    if i >= s.len() {
        flush(cur)
    } else if s[i] == '\n' {
        seq![strip_cr(cur)] + lines_from(s, i + 1, Seq::empty())
    } else {
        lines_from(s, i + 1, cur.push(s[i]))
    }
}

pub open spec fn lines(s: Seq<char>) -> Seq<Seq<char>> {
    lines_from(s, 0, Seq::empty())
}

pub fn lines_exec(s: &Vec<char>) -> (r: Vec<Vec<char>>)
    ensures
        r@.map_values(|w: Vec<char>| w@) == lines(s@),
{
    let mut out: Vec<Vec<char>> = Vec::new();
    let mut cur: Vec<char> = Vec::new();
    let mut i: usize = 0;
    while i < s.len()
        invariant
            i <= s.len(),
            out@.map_values(|w: Vec<char>| w@) + lines_from(s@, i as int, cur@) == lines(s@),
        decreases s.len() - i,
    {
        let c = s[i];
        let ghost before = out@.map_values(|w: Vec<char>| w@);
        if c == '\n' {
            let ghost cv = cur@;
            let mut w = cur;
            if w.len() > 0 && w[w.len() - 1] == '\r' {
                w.pop();
            }
            assert(w@ =~= strip_cr(cv));
            cur = Vec::new();
            out.push(w);
            assert(out@.map_values(|w: Vec<char>| w@) =~= before.push(strip_cr(cv)));
            assert(before + (seq![strip_cr(cv)] + lines_from(s@, i + 1, Seq::empty()))
                =~= before.push(strip_cr(cv)) + lines_from(s@, i + 1, cur@));
        } else {
            cur.push(c);
        }
        i = i + 1;
    }
    if cur.len() > 0 {
        let ghost before = out@.map_values(|w: Vec<char>| w@);
        let w = cur;
        out.push(w);
        assert(out@.map_values(|w: Vec<char>| w@) =~= before + flush(w@));
    } else {
        assert(flush(cur@) =~= Seq::<Seq<char>>::empty());
        assert(out@.map_values(|w: Vec<char>| w@) + flush(cur@) =~= out@.map_values(
            |w: Vec<char>| w@,
        ));
    }
    out
}

// ---------------------------------------------------------------------------
// Splitting at a pattern.
// ---------------------------------------------------------------------------

/// The last position at or before `i` where `t` occurs in `s`.
pub open spec fn rfind_upto(s: Seq<char>, t: Seq<char>, i: int) -> Option<nat>
    decreases i + 1,
{
    if i < 0 {
        None
    } else if matches_at(s, t, i) {
        Some(i as nat)
    } else {
        rfind_upto(s, t, i - 1)
    }
}

/// The last position where `t` occurs in `s`.
pub open spec fn rfind(s: Seq<char>, t: Seq<char>) -> Option<nat> {
    rfind_upto(s, t, s.len() as int)
}

/// The text after the last occurrence of `pat`, or all of `s` when it has none:
/// the last piece of `s.split(pat)` for a pattern that cannot overlap itself.
pub open spec fn after_last(s: Seq<char>, pat: Seq<char>) -> Seq<char> {
    match rfind(s, pat) {
        Some(i) => s.skip((i + pat.len()) as int),
        None => s,
    }
}

/// The second piece of `s.split(pat)`: the text between the first and the
/// second occurrence of `pat` (or the end), when `pat` occurs at all.
pub open spec fn second_piece(s: Seq<char>, pat: Seq<char>) -> Option<Seq<char>> {
    match find(s, pat) {
        Some(i) => {
            let rest = s.skip((i + pat.len()) as int);
            match find(rest, pat) {
                Some(j) => Some(rest.take(j as int)),
                None => Some(rest),
            }
        },
        None => None,
    }
}

proof fn lemma_rfind_upto(s: Seq<char>, t: Seq<char>, i: int)
    ensures
        match rfind_upto(s, t, i) {
            Some(k) => k <= i && matches_at(s, t, k as int) && forall|j: int|
                k < j <= i ==> !matches_at(s, t, j),
            None => forall|j: int| 0 <= j <= i ==> !matches_at(s, t, j),
        },
    decreases i + 1,
{
    if i >= 0 && !matches_at(s, t, i) {
        lemma_rfind_upto(s, t, i - 1);
    }
}

pub fn rfind_exec(s: &Vec<char>, t: &Vec<char>) -> (r: Option<usize>)
    ensures
        r == (match rfind(s@, t@) {
            Some(k) => Some(k as usize),
            None => None::<usize>,
        }),
        r matches Some(k) ==> matches_at(s@, t@, k as int),
        rfind(s@, t@) matches Some(k) ==> k + t@.len() <= s@.len(),
{
    proof {
        lemma_rfind_upto(s@, t@, s@.len() as int);
    }
    let mut i: usize = s.len();
    loop
        invariant
            i <= s.len(),
            forall|j: int| i < j <= s.len() ==> !matches_at(s@, t@, j),
        decreases i,
    {
        if matches_at_exec(s, t, i) {
            proof {
                lemma_rfind_upto(s@, t@, s@.len() as int);
            }
            return Some(i);
        }
        if i == 0 {
            proof {
                lemma_rfind_upto(s@, t@, s@.len() as int);
                if rfind(s@, t@) is Some {
                    let k = rfind(s@, t@)->0;
                    assert(matches_at(s@, t@, k as int));
                }
            }
            return None;
        }
        i = i - 1;
    }
}

/// The characters `v[lo..]`.
pub fn skip_exec(v: &Vec<char>, lo: usize) -> (r: Vec<char>)
    requires
        lo <= v.len(),
    ensures
        r@ == v@.skip(lo as int),
{
    let mut r: Vec<char> = Vec::new();
    let mut i = lo;
    while i < v.len()
        invariant
            lo <= i <= v.len(),
            r@ == v@.subrange(lo as int, i as int),
        decreases v.len() - i,
    {
        r.push(v[i]);
        assert(v@.subrange(lo as int, i + 1) =~= v@.subrange(lo as int, i as int).push(v@[i as int]));
        i = i + 1;
    }
    assert(v@.subrange(lo as int, v.len() as int) =~= v@.skip(lo as int));
    r
}

/// The characters `v[..hi]`.
pub fn take_exec(v: &Vec<char>, hi: usize) -> (r: Vec<char>)
    requires
        hi <= v.len(),
    ensures
        r@ == v@.take(hi as int),
{
    let mut r: Vec<char> = Vec::new();
    let mut i: usize = 0;
    while i < hi
        invariant
            i <= hi <= v.len(),
            r@ == v@.take(i as int),
        decreases hi - i,
    {
        r.push(v[i]);
        assert(v@.take(i + 1) =~= v@.take(i as int).push(v@[i as int]));
        i = i + 1;
    }
    r
}

pub fn after_last_exec(s: &Vec<char>, pat: &Vec<char>) -> (r: Vec<char>)
    ensures
        r@ == after_last(s@, pat@),
{
    match rfind_exec(s, pat) {
        Some(i) => {
            assert(matches_at(s@, pat@, i as int));
            let plen = pat.len();
            let slen = s.len();
            assert(i + plen <= slen);
            let j = i + plen;
            skip_exec(s, j)
        },
        None => {
            assert(s@.skip(0) =~= s@);
            skip_exec(s, 0)
        },
    }
}

pub fn second_piece_exec(s: &Vec<char>, pat: &Vec<char>) -> (r: Option<Vec<char>>)
    ensures
        r matches Some(v) ==> second_piece(s@, pat@) == Some(v@),
        r is None ==> second_piece(s@, pat@) is None,
{
    let fr = find_exec(s, pat);
    let slen = s.len();
    match fr {
        Some(i) => {
            proof {
                lemma_find_from(s@, pat@, 0);
                let k = find(s@, pat@)->0;
                assert(fr == Some(k as usize));
                assert(k + pat@.len() <= s@.len());
                assert(i as int == k);
            }
            let rest = skip_exec(s, i + pat.len());
            proof {
                lemma_find_from(rest@, pat@, 0);
            }
            match find_exec(&rest, pat) {
                Some(j) => Some(take_exec(&rest, j)),
                None => Some(rest),
            }
        },
        None => None,
    }
}

// ---------------------------------------------------------------------------
// Integers as `str::parse::<i32>` reads them.
// ---------------------------------------------------------------------------

pub open spec fn is_digit(c: char) -> bool {
    '0' <= c && c <= '9'
}

/// The value of a run of decimal digits.
pub open spec fn digits_value(ds: Seq<char>) -> int
    decreases ds.len(),
{
    if ds.len() == 0 {
        0
    } else {
        digits_value(ds.drop_last()) * 10 + (ds.last() as int - 48)
    }
}

/// `s` without a leading `+` or `-`.
pub open spec fn unsigned_part(s: Seq<char>) -> Seq<char> {
    if s.len() > 0 && (s[0] == '-' || s[0] == '+') {
        s.skip(1)
    } else {
        s
    }
}

pub open spec fn all_digits(ds: Seq<char>) -> bool {
    forall|i: int| 0 <= i < ds.len() ==> is_digit(#[trigger] ds[i])
}

/// `str::parse::<i32>`: an optional `+` or `-`, then one or more ASCII digits,
/// whose value fits in an `i32`.
pub open spec fn parse_i32(s: Seq<char>) -> Option<i32> {
    let ds = unsigned_part(s);
    let v = if s.len() > 0 && s[0] == '-' {
        -digits_value(ds)
    } else {
        digits_value(ds)
    };
    if ds.len() > 0 && all_digits(ds) && i32::MIN <= v <= i32::MAX {
        Some(v as i32)
    } else {
        None
    }
}

proof fn lemma_digits_value_grows(ds: Seq<char>, k: int)
    requires
        0 <= k <= ds.len(),
        forall|i: int| 0 <= i < ds.len() ==> is_digit(#[trigger] ds[i]),
    ensures
        0 <= digits_value(ds.take(k)) <= digits_value(ds),
    decreases ds.len() - k,
{
    if k < ds.len() {
        lemma_digits_value_grows(ds, k + 1);
        assert(ds.take(k + 1).drop_last() =~= ds.take(k));
    } else {
        assert(ds.take(k) =~= ds);
    }
    lemma_digits_value_nonneg(ds.take(k));
}

proof fn lemma_digits_value_nonneg(ds: Seq<char>)
    requires
        forall|i: int| 0 <= i < ds.len() ==> is_digit(#[trigger] ds[i]),
    ensures
        0 <= digits_value(ds),
    decreases ds.len(),
{
    if ds.len() > 0 {
        assert forall|i: int| 0 <= i < ds.drop_last().len() implies is_digit(
            #[trigger] ds.drop_last()[i],
        ) by {
            assert(ds.drop_last()[i] == ds[i]);
        }
        lemma_digits_value_nonneg(ds.drop_last());
    }
}

pub fn parse_i32_exec(s: &Vec<char>) -> (r: Option<i32>)
    ensures
        r == parse_i32(s@),
{
    let neg = s.len() > 0 && s[0] == '-';
    let start: usize = if s.len() > 0 && (s[0] == '-' || s[0] == '+') {
        1
    } else {
        0
    };
    let ghost ds = unsigned_part(s@);
    assert(ds =~= s@.skip(start as int));
    if start == s.len() {
        return None;
    }
    let mut val: i64 = 0;
    let mut i = start;
    while i < s.len()
        invariant
            start <= i <= s.len(),
            ds == s@.skip(start as int),
            ds == unsigned_part(s@),
            neg == (s@.len() > 0 && s@[0] == '-'),
            forall|j: int| 0 <= j < i - start ==> is_digit(#[trigger] ds[j]),
            val == digits_value(ds.take(i - start)),
            0 <= val <= 0x8000_0000,
        decreases s.len() - i,
    {
        let c = s[i];
        if !('0' <= c && c <= '9') {
            assert(ds[i - start] == c);
            assert(!is_digit(ds[i - start]));
            assert(!all_digits(ds));
            assert(parse_i32(s@) is None);
            return None;
        }
        assert(ds.take(i - start + 1).drop_last() =~= ds.take(i - start));
        assert(ds[i - start] == c);
        let d = (c as u32 - 48) as i64;
        val = val * 10 + d;
        if val > 0x8000_0000 {
            proof {
                assert forall|j: int| 0 <= j < i + 1 - start implies is_digit(#[trigger] ds[j]) by {
                    if j == i - start {
                        assert(ds[j] == c);
                    }
                }
                let k = (i + 1 - start) as int;
                let ghost rest_digits = forall|j: int| 0 <= j < ds.len() ==> is_digit(#[trigger] ds[j]);
                if rest_digits {
                    lemma_digits_value_grows(ds, k);
                }
            }
            return None;
        }
        i = i + 1;
    }
    assert(ds.take(ds.len() as int) =~= ds);
    let v: i64 = if neg {
        -val
    } else {
        val
    };
    assert(all_digits(ds));
    assert(val == digits_value(ds));
    if v < -0x8000_0000 || v > 0x7FFF_FFFF {
        assert(parse_i32(s@) is None);
        return None;
    }
    Some(v as i32)
}

/// `str::parse::<u32>`: an optional `+`, then one or more ASCII digits, whose
/// value fits in a `u32`.
pub open spec fn parse_u32(s: Seq<char>) -> Option<u32> {
    let ds = if s.len() > 0 && s[0] == '+' {
        s.skip(1)
    } else {
        s
    };
    if ds.len() > 0 && all_digits(ds) && digits_value(ds) <= u32::MAX {
        Some(digits_value(ds) as u32)
    } else {
        None
    }
}

pub fn parse_u32_exec(s: &Vec<char>) -> (r: Option<u32>)
    ensures
        r == parse_u32(s@),
{
    let start: usize = if s.len() > 0 && s[0] == '+' {
        1
    } else {
        0
    };
    let ghost ds = if s@.len() > 0 && s@[0] == '+' {
        s@.skip(1)
    } else {
        s@
    };
    assert(ds =~= s@.skip(start as int));
    if start == s.len() {
        return None;
    }
    let mut val: u64 = 0;
    let mut i = start;
    while i < s.len()
        invariant
            start <= i <= s.len(),
            ds == s@.skip(start as int),
            ds == (if s@.len() > 0 && s@[0] == '+' {
                s@.skip(1)
            } else {
                s@
            }),
            forall|j: int| 0 <= j < i - start ==> is_digit(#[trigger] ds[j]),
            val == digits_value(ds.take(i - start)),
            0 <= val <= u32::MAX,
        decreases s.len() - i,
    {
        let c = s[i];
        if !('0' <= c && c <= '9') {
            assert(ds[i - start] == c);
            assert(!all_digits(ds));
            return None;
        }
        assert(ds.take(i - start + 1).drop_last() =~= ds.take(i - start));
        assert(ds[i - start] == c);
        let d = (c as u32 - 48) as u64;
        val = val * 10 + d;
        if val > 0xFFFF_FFFF {
            proof {
                if all_digits(ds) {
                    lemma_digits_value_grows(ds, (i + 1 - start) as int);
                }
            }
            return None;
        }
        i = i + 1;
    }
    assert(ds.take(ds.len() as int) =~= ds);
    assert(all_digits(ds));
    Some(val as u32)
}


// ---------------------------------------------------------------------------
// Comparing, prefixes and splitting once.
// ---------------------------------------------------------------------------

/// Whether two character sequences are equal.
pub fn same_chars(x: &Vec<char>, y: &Vec<char>) -> (r: bool)
    ensures
        r == (x@ == y@),
{
    if x.len() != y.len() {
        return false;
    }
    let mut i: usize = 0;
    while i < x.len()
        invariant
            x.len() == y.len(),
            i <= x.len(),
            forall|j: int| 0 <= j < i ==> x@[j] == y@[j],
        decreases x.len() - i,
    {
        if x[i] != y[i] {
            return false;
        }
        i = i + 1;
    }
    assert(x@ =~= y@);
    true
}

/// Whether a string holds exactly the text of `b`.
pub fn str_eq(a: &str, b: &str) -> (r: bool)
    ensures
        r == (a@ == b@),
{
    let x = chars_of(a);
    let y = chars_of(b);
    same_chars(&x, &y)
}

/// A string holding the characters of a literal.
pub fn lit(s: &str) -> (r: String)
    ensures
        r@ == s@,
{
    let v = chars_of(s);
    string_of(&v)
}

/// `str::strip_prefix`: the rest of `s` after `t`, when `s` starts with `t`.
pub open spec fn strip_prefix(s: Seq<char>, t: Seq<char>) -> Option<Seq<char>> {
    if starts_with(s, t) {
        Some(s.skip(t.len() as int))
    } else {
        None
    }
}

pub fn strip_prefix_exec(s: &Vec<char>, t: &Vec<char>) -> (r: Option<Vec<char>>)
    ensures
        r matches Some(v) ==> strip_prefix(s@, t@) == Some(v@),
        r is None ==> strip_prefix(s@, t@) is None,
{
    if starts_with_exec(s, t) {
        let n = t.len();
        Some(skip_exec(s, n))
    } else {
        None
    }
}

/// `str::split_once`: the text before and after the first occurrence of `pat`.
pub open spec fn split_once(s: Seq<char>, pat: Seq<char>) -> Option<(Seq<char>, Seq<char>)> {
    match find(s, pat) {
        Some(i) => Some((s.take(i as int), s.skip((i + pat.len()) as int))),
        None => None,
    }
}

pub fn split_once_exec(s: &Vec<char>, pat: &Vec<char>) -> (r: Option<(Vec<char>, Vec<char>)>)
    ensures
        r matches Some(p) ==> split_once(s@, pat@) == Some((p.0@, p.1@)),
        r is None ==> split_once(s@, pat@) is None,
{
    match find_exec(s, pat) {
        Some(i) => {
            let plen = pat.len();
            let slen = s.len();
            assert(i + plen <= slen);
            let a = take_exec(s, i);
            let b = skip_exec(s, i + plen);
            Some((a, b))
        },
        None => None,
    }
}

} // verus!
