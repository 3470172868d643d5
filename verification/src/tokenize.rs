//! Query and document tokenization: overlapping bigrams for CJK ideographs,
//! whole alphanumeric runs for everything else.
use vstd::prelude::*;
use crate::text::{
    char_is_alphanumeric, chars_of, flush, is_alphanumeric, lowercase, push_char, split_whitespace,
    to_lowercase, views, words,
};

verus! {

/// Whether `c` lies in one of the CJK ideograph ranges that are paired into bigrams.
pub open spec fn spec_is_cjk(c: char) -> bool {
    let u = c as u32;
    (0x4E00 <= u && u <= 0x9FFF) || (0x3400 <= u && u <= 0x4DBF) || (0x20000 <= u && u
        <= 0x2A6DF)
}

pub fn is_cjk(c: char) -> (r: bool)
    ensures
        r == spec_is_cjk(c),
{
    let u = c as u32;
    (u >= 0x4E00 && u <= 0x9FFF) || (u >= 0x3400 && u <= 0x4DBF) || (u >= 0x20000 && u <= 0x2A6DF)
}

/// `char::is_ascii_punctuation`: one of ``!"#$%&'()*+,-./:;<=>?@[\]^_`{|}~``.
pub open spec fn spec_is_ascii_punct(c: char) -> bool {
    let u = c as u32;
    (0x21 <= u && u <= 0x2F) || (0x3A <= u && u <= 0x40) || (0x5B <= u && u <= 0x60) || (0x7B
        <= u && u <= 0x7E)
}

pub fn is_ascii_punct(c: char) -> (r: bool)
    ensures
        r == spec_is_ascii_punct(c),
{
    let u = c as u32;
    (u >= 0x21 && u <= 0x2F) || (u >= 0x3A && u <= 0x40) || (u >= 0x5B && u <= 0x60) || (u >= 0x7B
        && u <= 0x7E)
}

/// The number of leading ASCII punctuation characters of `s`.
pub open spec fn leading_punct(s: Seq<char>) -> nat
    decreases s.len(),
{
    if s.len() == 0 {
        0
    } else if spec_is_ascii_punct(s[0]) {
        1 + leading_punct(s.drop_first())
    } else {
        0
    }
}

/// The number of trailing ASCII punctuation characters of `s`.
pub open spec fn trailing_punct(s: Seq<char>) -> nat
    decreases s.len(),
{
    if s.len() == 0 {
        0
    } else if spec_is_ascii_punct(s.last()) {
        1 + trailing_punct(s.drop_last())
    } else {
        0
    }
}

/// `s.trim_matches(|c| c.is_ascii_punctuation())`.
pub open spec fn trim_punct(s: Seq<char>) -> Seq<char> {
    if leading_punct(s) == s.len() {
        Seq::empty()
    } else {
        s.subrange(leading_punct(s) as int, s.len() - trailing_punct(s))
    }
}

proof fn lemma_leading_punct(s: Seq<char>, i: int)
    requires
        0 <= i <= s.len(),
        forall|j: int| 0 <= j < i ==> spec_is_ascii_punct(s[j]),
        i == s.len() || !spec_is_ascii_punct(s[i]),
    ensures
        leading_punct(s) == i,
    decreases s.len(),
{
    if s.len() > 0 && i > 0 {
        assert forall|j: int| 0 <= j < i - 1 implies spec_is_ascii_punct(s.drop_first()[j]) by {
            assert(s.drop_first()[j] == s[j + 1]);
        }
        lemma_leading_punct(s.drop_first(), i - 1);
    }
}

proof fn lemma_trailing_punct(s: Seq<char>, i: int)
    requires
        0 <= i <= s.len(),
        forall|j: int| s.len() - i <= j < s.len() ==> spec_is_ascii_punct(s[j]),
        i == s.len() || !spec_is_ascii_punct(s[s.len() - 1 - i]),
    ensures
        trailing_punct(s) == i,
    decreases s.len(),
{
    if s.len() > 0 && i > 0 {
        assert forall|j: int| s.len() - 1 - (i - 1) <= j < s.len() - 1 implies spec_is_ascii_punct(
            s.drop_last()[j],
        ) by {
            assert(s.drop_last()[j] == s[j]);
        }
        lemma_trailing_punct(s.drop_last(), i - 1);
    }
}

pub fn trim_punct_exec(s: &Vec<char>) -> (r: Vec<char>)
    ensures
        r@ == trim_punct(s@),
{
    let mut lo: usize = 0;
    while lo < s.len() && is_ascii_punct(s[lo])
        invariant
            lo <= s.len(),
            forall|j: int| 0 <= j < lo ==> spec_is_ascii_punct(s@[j]),
        decreases s.len() - lo,
    {
        lo = lo + 1;
    }
    proof {
        lemma_leading_punct(s@, lo as int);
    }
    if lo == s.len() {
        return Vec::new();
    }
    let mut t: usize = 0;
    while t < s.len() - lo && is_ascii_punct(s[s.len() - 1 - t])
        invariant
            lo < s.len(),
            t <= s.len() - lo,
            forall|j: int| s.len() - t <= j < s.len() ==> spec_is_ascii_punct(s@[j]),
        decreases s.len() - lo - t,
    {
        t = t + 1;
    }
    proof {
        if t == s.len() - lo {
            assert(!spec_is_ascii_punct(s@[lo as int]));
            assert(spec_is_ascii_punct(s@[s.len() - t]));
        }
        lemma_trailing_punct(s@, t as int);
    }
    let hi = s.len() - t;
    let mut r: Vec<char> = Vec::new();
    let mut i = lo;
    while i < hi
        invariant
            lo <= i <= hi <= s.len(),
            r@ == s@.subrange(lo as int, i as int),
        decreases hi - i,
    {
        r.push(s[i]);
        assert(s@.subrange(lo as int, i + 1) =~= s@.subrange(lo as int, i as int).push(s@[i as int]));
        i = i + 1;
    }
    r
}

/// The token that a CJK character at position `i` of `cs` opens: the bigram it
/// forms with a following CJK character, or the character alone.
pub open spec fn cjk_token(cs: Seq<char>, i: int) -> Seq<char> {
    if i + 1 < cs.len() && spec_is_cjk(cs[i + 1]) {
        seq![cs[i], cs[i + 1]]
    } else {
        seq![cs[i]]
    }
}

/// Tokens of `cs[i..]`, where `cur` is the alphanumeric run collected before `i`.
/// Every CJK character opens a token of its own (overlapping bigrams); maximal
/// runs of other alphanumeric characters form one token each; anything else
/// separates.
pub open spec fn part_tokens_from(cs: Seq<char>, i: int, cur: Seq<char>) -> Seq<Seq<char>>
    decreases cs.len() - i,
{
    if i >= cs.len() {
        flush(cur)
    } else if spec_is_cjk(cs[i]) {
        flush(cur) + seq![cjk_token(cs, i)] + part_tokens_from(cs, i + 1, Seq::empty())
    } else if char_is_alphanumeric(cs[i]) {
        part_tokens_from(cs, i + 1, cur.push(cs[i]))
    } else {
        flush(cur) + part_tokens_from(cs, i + 1, Seq::empty())
    }
}

pub open spec fn part_tokens(cs: Seq<char>) -> Seq<Seq<char>> {
    part_tokens_from(cs, 0, Seq::empty())
}

/// Tokens of a list of whitespace-separated words, each stripped of ASCII punctuation.
pub open spec fn tokens_of_words(ws: Seq<Seq<char>>) -> Seq<Seq<char>>
    decreases ws.len(),
{
    if ws.len() == 0 {
        Seq::empty()
    } else {
        tokens_of_words(ws.drop_last()) + part_tokens(trim_punct(ws.last()))
    }
}

/// The tokens of a text: it is lowercased, split at whitespace, each word is
/// stripped of ASCII punctuation at both ends and then cut into tokens.
pub open spec fn spec_tokenize(text: Seq<char>) -> Seq<Seq<char>> {
    tokens_of_words(words(lowercase(text)))
}

/// Appends the tokens of one punctuation-stripped word to `out`.
fn push_part_tokens(cs: &Vec<char>, out: &mut Vec<String>)
    ensures
        views(final(out)@) == views(old(out)@) + part_tokens(cs@),
{
    let ghost start = views(out@);
    let mut cur = String::new();
    let mut i: usize = 0;
    while i < cs.len()
        invariant
            i <= cs.len(),
            views(out@) + part_tokens_from(cs@, i as int, cur@) == start + part_tokens(cs@),
        decreases cs.len() - i,
    {
        let c = cs[i];
        let ghost before = views(out@);
        let ghost cv = cur@;
        if is_cjk(c) {
            if !cur.as_str().is_empty() {
                out.push(cur);
                cur = String::new();
            }
            assert(views(out@) =~= before + flush(cv));
            assert(cur@ =~= Seq::<char>::empty());
            let mut tok = String::new();
            push_char(&mut tok, c);
            if i + 1 < cs.len() && is_cjk(cs[i + 1]) {
                push_char(&mut tok, cs[i + 1]);
            }
            assert(tok@ =~= cjk_token(cs@, i as int));
            let ghost mid = views(out@);
            out.push(tok);
            assert(views(out@) =~= mid.push(cjk_token(cs@, i as int)));
            assert(before + (flush(cv) + seq![cjk_token(cs@, i as int)] + part_tokens_from(
                cs@,
                i + 1,
                Seq::empty(),
            )) =~= views(out@) + part_tokens_from(cs@, i + 1, cur@));
        } else if is_alphanumeric(c) {
            push_char(&mut cur, c);
        } else {
            if !cur.as_str().is_empty() {
                out.push(cur);
                cur = String::new();
            }
            assert(views(out@) =~= before + flush(cv));
            assert(cur@ =~= Seq::<char>::empty());
            assert(before + (flush(cv) + part_tokens_from(cs@, i + 1, Seq::empty()))
                =~= views(out@) + part_tokens_from(cs@, i + 1, cur@));
        }
        i = i + 1;
    }
    let ghost before = views(out@);
    let ghost cv = cur@;
    if !cur.as_str().is_empty() {
        out.push(cur);
    }
    assert(views(out@) =~= before + flush(cv));
}

/// Splits a text into search tokens.
pub fn tokenize(text: &str) -> (tokens: Vec<String>)
    ensures
        views(tokens@) == spec_tokenize(text@),
{
    let lower = to_lowercase(text);
    let chars = chars_of(lower.as_str());
    let parts = split_whitespace(&chars);
    let ghost ws = parts@.map_values(|w: Vec<char>| w@);
    let mut tokens: Vec<String> = Vec::new();
    let mut k: usize = 0;
    while k < parts.len()
        invariant
            k <= parts.len(),
            ws == parts@.map_values(|w: Vec<char>| w@),
            views(tokens@) == tokens_of_words(ws.take(k as int)),
        decreases parts.len() - k,
    {
        let part = trim_punct_exec(&parts[k]);
        push_part_tokens(&part, &mut tokens);
        assert(ws.take(k + 1).drop_last() =~= ws.take(k as int));
        k = k + 1;
    }
    assert(ws.take(parts.len() as int) =~= ws);
    tokens
}


pub open spec fn all_nonempty(v: Seq<Seq<char>>) -> bool {
    forall|i: int| 0 <= i < v.len() ==> (#[trigger] v[i]).len() > 0
}

proof fn lemma_concat_nonempty(a: Seq<Seq<char>>, b: Seq<Seq<char>>)
    requires
        all_nonempty(a),
        all_nonempty(b),
    ensures
        all_nonempty(a + b),
{
    assert forall|i: int| 0 <= i < (a + b).len() implies (#[trigger] (a + b)[i]).len() > 0 by {
        if i < a.len() {
            assert((a + b)[i] == a[i]);
        } else {
            assert((a + b)[i] == b[i - a.len()]);
        }
    }
}

proof fn lemma_part_tokens_nonempty(cs: Seq<char>, i: int, cur: Seq<char>)
    ensures
        all_nonempty(part_tokens_from(cs, i, cur)),
    decreases cs.len() - i,
{
    if i >= cs.len() {
    } else if spec_is_cjk(cs[i]) {
        lemma_part_tokens_nonempty(cs, i + 1, Seq::empty());
        lemma_concat_nonempty(flush(cur), seq![cjk_token(cs, i)]);
        lemma_concat_nonempty(
            flush(cur) + seq![cjk_token(cs, i)],
            part_tokens_from(cs, i + 1, Seq::empty()),
        );
    } else if char_is_alphanumeric(cs[i]) {
        lemma_part_tokens_nonempty(cs, i + 1, cur.push(cs[i]));
    } else {
        lemma_part_tokens_nonempty(cs, i + 1, Seq::empty());
        lemma_concat_nonempty(flush(cur), part_tokens_from(cs, i + 1, Seq::empty()));
    }
}

/// No token is empty.
pub proof fn lemma_tokens_nonempty(text: Seq<char>)
    ensures
        all_nonempty(spec_tokenize(text)),
{
    lemma_words_tokens_nonempty(words(lowercase(text)));
}

proof fn lemma_words_tokens_nonempty(ws: Seq<Seq<char>>)
    ensures
        all_nonempty(tokens_of_words(ws)),
    decreases ws.len(),
{
    if ws.len() > 0 {
        lemma_words_tokens_nonempty(ws.drop_last());
        lemma_part_tokens_nonempty(trim_punct(ws.last()), 0, Seq::empty());
        lemma_concat_nonempty(
            tokens_of_words(ws.drop_last()),
            part_tokens(trim_punct(ws.last())),
        );
    }
}

} // verus!
