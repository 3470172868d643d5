//! Picking the part of a document shown with a search hit: a short snippet
//! around the first query token, and the densest block of matching lines.
use vstd::prelude::*;
use crate::text::{
    chars_of, contains, contains_exec, find, find_exec, lines, lines_exec, lowercase, matches_at, push_char,
    push_chars, to_lowercase, trim, trim_exec, views,
};

verus! {

// ---------------------------------------------------------------------------
// The dense block.
// ---------------------------------------------------------------------------

/// The distinct sequences of `s`, in order of first occurrence.
pub open spec fn distinct(s: Seq<Seq<char>>) -> Seq<Seq<char>>
    decreases s.len(),
{
    if s.len() == 0 {
        Seq::empty()
    } else {
        let d = distinct(s.drop_last());
        if d.contains(s.last()) {
            d
        } else {
            d.push(s.last())
        }
    }
}

/// How many of `toks` occur in `line`.
pub open spec fn hit_count(line: Seq<char>, toks: Seq<Seq<char>>) -> nat
    decreases toks.len(),
{
    if toks.len() == 0 {
        0
    } else {
        hit_count(line, toks.drop_last()) + if contains(line, toks.last()) {
            1nat
        } else {
            0nat
        }
    }
}

/// For each line of `content`, how many distinct query tokens occur in the
/// line of the same number of the lowercased content.
pub open spec fn line_hits(content: Seq<char>, toks: Seq<Seq<char>>) -> Seq<nat> {
    let low = lines(lowercase(content));
    let d = distinct(toks);
    Seq::new(
        lines(content).len(),
        |i: int|
            if i < low.len() {
                hit_count(low[i], d)
            } else {
                0nat
            },
    )
}

pub open spec fn seq_max(s: Seq<nat>) -> nat
    decreases s.len(),
{
    if s.len() == 0 {
        0
    } else if s.last() > seq_max(s.drop_last()) {
        s.last()
    } else {
        seq_max(s.drop_last())
    }
}

/// The least number of hits for a line to count: 1, or a quarter of the best
/// line (at least 2) once the best line has 6 hits or more.
pub open spec fn hit_threshold(max: nat) -> nat {
    if max >= 6 {
        if max / 4 > 2 {
            max / 4
        } else {
            2
        }
    } else {
        1
    }
}

/// The lines among the first `n` that reach `th` hits, as (line, hits), in order.
pub open spec fn hit_lines(h: Seq<nat>, th: nat, n: int) -> Seq<(int, nat)>
    decreases n,
{
    if n <= 0 {
        Seq::empty()
    } else {
        let r = hit_lines(h, th, n - 1);
        if h[n - 1] >= th {
            r.push((n - 1, h[n - 1]))
        } else {
            r
        }
    }
}

/// Clustering state: the best cluster so far and the cluster being grown,
/// each as (first line, last line, total hits).
pub struct Clusters {
    pub best: (int, int, int),
    pub cur: (int, int, int),
}

/// Adds one hit line: it joins the current cluster when it is at most 5 lines
/// after its end; otherwise the current cluster is closed (replacing the best
/// one when it has strictly more hits) and a new one starts.
pub open spec fn cluster_step(st: Clusters, hl: (int, nat)) -> Clusters {
    if hl.0 - st.cur.1 <= 5 {
        Clusters { best: st.best, cur: (st.cur.0, hl.0, st.cur.2 + hl.1) }
    } else if st.cur.2 > st.best.2 {
        Clusters { best: st.cur, cur: (hl.0, hl.0, hl.1 as int) }
    } else {
        Clusters { best: st.best, cur: (hl.0, hl.0, hl.1 as int) }
    }
}

/// The clustering state after the first `k` hit lines (at least the first one).
pub open spec fn clusters(hl: Seq<(int, nat)>, k: int) -> Clusters
    decreases k,
{
    if k <= 1 {
        Clusters { best: (hl[0].0, hl[0].0, 0), cur: (hl[0].0, hl[0].0, hl[0].1 as int) }
    } else {
        cluster_step(clusters(hl, k - 1), hl[k - 1])
    }
}

/// The first and last line of the cluster with the most hits (the earliest on a tie).
pub open spec fn best_cluster(hl: Seq<(int, nat)>) -> (int, int) {
    let st = clusters(hl, hl.len() as int);
    if st.cur.2 > st.best.2 {
        (st.cur.0, st.cur.1)
    } else {
        (st.best.0, st.best.1)
    }
}

/// The first line of `h[lo..j]` with the most hits, and that count (0 and `lo` when none has a hit).
pub open spec fn peak(h: Seq<nat>, lo: int, j: int) -> (int, nat)
    decreases j - lo,
{
    if j <= lo {
        (lo, 0)
    } else {
        let p = peak(h, lo, j - 1);
        if h[j - 1] > p.1 {
            (j - 1, h[j - 1])
        } else {
            p
        }
    }
}

/// The lines of `ls` joined with `'\n'`.
pub open spec fn join_lines(ls: Seq<Seq<char>>) -> Seq<char>
    decreases ls.len(),
{
    if ls.len() == 0 {
        Seq::empty()
    } else if ls.len() == 1 {
        ls[0]
    } else {
        join_lines(ls.drop_last()) + seq!['\n'] + ls.last()
    }
}

/// The line range (0-based, inclusive) of the dense block: the best cluster,
/// cut down to at most 5 lines before and 10 after its busiest line when it is
/// longer than 15 lines.
pub open spec fn block_range(h: Seq<nat>, hl: Seq<(int, nat)>) -> (int, int) {
    let (s0, e0) = best_cluster(hl);
    if e0 - s0 + 1 > 15 {
        let p = peak(h, s0, e0 + 1).0;
        (
            if p >= 5 {
                p - 5
            } else {
                0
            },
            if p + 10 < e0 {
                p + 10
            } else {
                e0
            },
        )
    } else {
        (s0, e0)
    }
}

/// The densest block of `content` for the query tokens: its first and last
/// line numbers (1-based) and its text, or `(0, 0, "")` when no line has a hit.
pub open spec fn dense_block(content: Seq<char>, toks: Seq<Seq<char>>) -> (nat, nat, Seq<char>) {
    let h = line_hits(content, toks);
    let m = seq_max(h);
    let hl = hit_lines(h, hit_threshold(m), h.len() as int);
    if m == 0 || hl.len() == 0 {
        (0, 0, Seq::empty())
    } else {
        let (s, e) = block_range(h, hl);
        ((s + 1) as nat, (e + 1) as nat, join_lines(lines(content).subrange(s, e + 1)))
    }
}

/// The lowercased content has no more lines than the content itself: the
/// per-line hit table is sized by the content's lines.
pub open spec fn dense_block_defined(content: Seq<char>, toks: Seq<Seq<char>>) -> bool {
    &&& lines(lowercase(content)).len() <= lines(content).len()
    &&& lines(content).len() * toks.len() <= usize::MAX
}

proof fn lemma_distinct(s: Seq<Seq<char>>)
    ensures
        distinct(s).len() <= s.len(),
        forall|x: Seq<char>| distinct(s).contains(x) <==> s.contains(x),
        distinct(s).no_duplicates(),
    decreases s.len(),
{
    if s.len() > 0 {
        lemma_distinct(s.drop_last());
        let d = distinct(s.drop_last());
        let sd = s.drop_last();
        assert forall|x: Seq<char>| distinct(s).contains(x) <==> s.contains(x) by {
            if s.contains(x) {
                let i = choose|i: int| 0 <= i < s.len() && s[i] == x;
                if i < s.len() - 1 {
                    assert(sd[i] == x);
                    assert(sd.contains(x));
                    let k = choose|k: int| 0 <= k < d.len() && d[k] == x;
                    if !d.contains(s.last()) {
                        assert(distinct(s)[k] == x);
                    }
                } else if !d.contains(s.last()) {
                    assert(distinct(s)[d.len() as int] == x);
                }
            }
            if distinct(s).contains(x) {
                let k = choose|k: int| 0 <= k < distinct(s).len() && distinct(s)[k] == x;
                if k < d.len() {
                    assert(d[k] == x);
                    assert(d.contains(x));
                    assert(sd.contains(x));
                    let i = choose|i: int| 0 <= i < sd.len() && sd[i] == x;
                    assert(s[i] == x);
                } else {
                    assert(s[s.len() - 1] == x);
                }
            }
        }
    }
}

proof fn lemma_hit_count_bound(line: Seq<char>, toks: Seq<Seq<char>>)
    ensures
        hit_count(line, toks) <= toks.len(),
    decreases toks.len(),
{
    if toks.len() > 0 {
        lemma_hit_count_bound(line, toks.drop_last());
    }
}

proof fn lemma_seq_max(s: Seq<nat>)
    ensures
        forall|i: int| 0 <= i < s.len() ==> s[i] <= seq_max(s),
        s.len() > 0 ==> exists|i: int| 0 <= i < s.len() && s[i] == seq_max(s),
        s.len() == 0 ==> seq_max(s) == 0,
    decreases s.len(),
{
    if s.len() > 0 {
        lemma_seq_max(s.drop_last());
        assert forall|i: int| 0 <= i < s.len() implies s[i] <= seq_max(s) by {
            if i < s.len() - 1 {
                assert(s[i] == s.drop_last()[i]);
            }
        }
        if s.last() <= seq_max(s.drop_last()) && s.len() > 1 {
            let i = choose|i: int| 0 <= i < s.drop_last().len() && s.drop_last()[i] == seq_max(
                s.drop_last(),
            );
            assert(s[i] == seq_max(s));
        }
    }
}

proof fn lemma_hit_lines(h: Seq<nat>, th: nat, n: int)
    requires
        0 <= n <= h.len(),
    ensures
        hit_lines(h, th, n).len() <= n,
        forall|k: int|
            0 <= k < hit_lines(h, th, n).len() ==> 0 <= (#[trigger] hit_lines(h, th, n)[k]).0 < n
                && hit_lines(h, th, n)[k].1 == h[hit_lines(h, th, n)[k].0] && hit_lines(
                h,
                th,
                n,
            )[k].1 >= th,
        forall|a: int, b: int|
            0 <= a < b < hit_lines(h, th, n).len() ==> (#[trigger] hit_lines(h, th, n)[a]).0 < (
            #[trigger] hit_lines(h, th, n)[b]).0,
        forall|i: int| 0 <= i < n && h[i] >= th ==> exists|k: int|
            0 <= k < hit_lines(h, th, n).len() && (#[trigger] hit_lines(h, th, n)[k]).0 == i,
    decreases n,
{
    if n > 0 {
        lemma_hit_lines(h, th, n - 1);
        let r = hit_lines(h, th, n - 1);
        assert forall|i: int| 0 <= i < n && h[i] >= th implies exists|k: int|
            0 <= k < hit_lines(h, th, n).len() && (#[trigger] hit_lines(h, th, n)[k]).0 == i by {
            if i < n - 1 {
                let k = choose|k: int| 0 <= k < r.len() && (#[trigger] r[k]).0 == i;
                assert(hit_lines(h, th, n)[k] == r[k]);
            } else {
                assert(hit_lines(h, th, n)[r.len() as int].0 == i);
            }
        }
    }
}

/// `count` lines of at most `per` hits each sum to at most `count * per`.
proof fn lemma_score_bound(score: int, count: int, per: int, add: int, total: int)
    requires
        0 <= score <= count * per,
        0 <= add <= per,
        0 <= count,
        count + 1 <= total,
        0 <= per,
    ensures
        score + add <= (count + 1) * per,
        (count + 1) * per <= total * per,
{
    assert((count + 1) * per == count * per + per) by (nonlinear_arith);
    assert((count + 1) * per <= total * per) by (nonlinear_arith)
        requires
            count + 1 <= total,
            0 <= per,
    ;
}

fn distinct_tokens(toks: &Vec<String>) -> (d: Vec<Vec<char>>)
    ensures
        d@.map_values(|w: Vec<char>| w@) == distinct(views(toks@)),
{
    let ghost tv = views(toks@);
    let mut d: Vec<Vec<char>> = Vec::new();
    let mut k: usize = 0;
    while k < toks.len()
        invariant
            k <= toks.len(),
            tv == views(toks@),
            d@.map_values(|w: Vec<char>| w@) == distinct(tv.take(k as int)),
        decreases toks.len() - k,
    {
        let t = chars_of(toks[k].as_str());
        assert(tv.take(k + 1).drop_last() =~= tv.take(k as int));
        assert(tv.take(k + 1).last() == t@);
        let ghost dv = d@.map_values(|w: Vec<char>| w@);
        let mut seen = false;
        let mut j: usize = 0;
        while j < d.len()
            invariant
                j <= d.len(),
                dv == d@.map_values(|w: Vec<char>| w@),
                seen <==> exists|i: int| 0 <= i < j && dv[i] == t@,
            decreases d.len() - j,
        {
            assert(dv[j as int] == d@[j as int]@);
            if vec_chars_eq(&d[j], &t) {
                seen = true;
            }
            j = j + 1;
        }
        if !seen {
            d.push(t);
            assert(d@.map_values(|w: Vec<char>| w@) =~= dv.push(t@));
        } else {
            proof {
                let i = choose|i: int| 0 <= i < j && dv[i] == t@;
                assert(dv.contains(t@));
            }
        }
        k = k + 1;
    }
    assert(tv.take(toks.len() as int) =~= tv);
    d
}

fn vec_chars_eq(a: &Vec<char>, b: &Vec<char>) -> (r: bool)
    ensures
        r == (a@ == b@),
{
    if a.len() != b.len() {
        return false;
    }
    let mut i: usize = 0;
    while i < a.len()
        invariant
            a.len() == b.len(),
            i <= a.len(),
            forall|j: int| 0 <= j < i ==> a@[j] == b@[j],
        decreases a.len() - i,
    {
        if a[i] != b[i] {
            return false;
        }
        i = i + 1;
    }
    assert(a@ =~= b@);
    true
}

fn count_hits(line: &Vec<char>, d: &Vec<Vec<char>>) -> (r: usize)
    ensures
        r == hit_count(line@, d@.map_values(|w: Vec<char>| w@)),
{
    let ghost dv = d@.map_values(|w: Vec<char>| w@);
    let mut hits: usize = 0;
    let mut k: usize = 0;
    while k < d.len()
        invariant
            k <= d.len(),
            dv == d@.map_values(|w: Vec<char>| w@),
            hits == hit_count(line@, dv.take(k as int)),
            hits <= k,
        decreases d.len() - k,
    {
        assert(dv.take(k + 1).drop_last() =~= dv.take(k as int));
        if contains_exec(line, &d[k]) {
            hits = hits + 1;
        }
        k = k + 1;
    }
    assert(dv.take(d.len() as int) =~= dv);
    hits
}

/// The densest block of matching lines of `content`: 1-based first and last
/// line and the lines' text joined with `'\n'`.
#[verifier::spinoff_prover]
#[verifier::rlimit(40)]
pub fn extract_dense_block(content: &str, query_tokens: &Vec<String>) -> (r: (usize, usize, String))
    requires
        dense_block_defined(content@, views(query_tokens@)),
    ensures
        r.0 == dense_block(content@, views(query_tokens@)).0,
        r.1 == dense_block(content@, views(query_tokens@)).1,
        r.2@ == dense_block(content@, views(query_tokens@)).2,
{
    let ghost toks = views(query_tokens@);
    let chars = chars_of(content);
    let lower = to_lowercase(content);
    let lower_chars = chars_of(lower.as_str());
    let ls = lines_exec(&chars);
    let lls = lines_exec(&lower_chars);
    let ghost lsv = ls@.map_values(|w: Vec<char>| w@);
    let ghost llv = lls@.map_values(|w: Vec<char>| w@);
    let d = distinct_tokens(query_tokens);
    proof {
        lemma_distinct(toks);
    }
    let ghost h = line_hits(content@, toks);
    let mut line_hits_v: Vec<usize> = Vec::new();
    let mut max_hits: usize = 0;
    let mut i: usize = 0;
    while i < ls.len()
        invariant
            i <= ls.len(),
            lsv == ls@.map_values(|w: Vec<char>| w@),
            llv == lls@.map_values(|w: Vec<char>| w@),
            lsv == lines(content@),
            llv == lines(lowercase(content@)),
            lls.len() <= ls.len(),
            h == line_hits(content@, toks),
            d@.map_values(|w: Vec<char>| w@) == distinct(toks),
            distinct(toks).len() <= toks.len(),
            line_hits_v@.len() == i,
            forall|j: int| 0 <= j < i ==> line_hits_v@[j] == h[j],
            max_hits == seq_max(h.take(i as int)),
        decreases ls.len() - i,
    {
        let hits = if i < lls.len() {
            count_hits(&lls[i], &d)
        } else {
            0
        };
        assert(hits == h[i as int]);
        assert(h.take(i + 1).drop_last() =~= h.take(i as int));
        if hits > max_hits {
            max_hits = hits;
        }
        line_hits_v.push(hits);
        i = i + 1;
    }
    assert(h.take(ls.len() as int) =~= h);
    assert(line_hits_v@.map_values(|x: usize| x as nat) =~= h);
    if max_hits == 0 {
        return (0, 0, String::new());
    }
    proof {
        lemma_seq_max(h);
    }
    let threshold: usize = if max_hits >= 6 {
        if max_hits / 4 > 2 {
            max_hits / 4
        } else {
            2
        }
    } else {
        1
    };
    let ghost th = hit_threshold(max_hits as nat);
    let ghost hlv = hit_lines(h, th, h.len() as int);
    let mut hit_idx: Vec<usize> = Vec::new();
    let mut hit_cnt: Vec<usize> = Vec::new();
    let mut j: usize = 0;
    while j < line_hits_v.len()
        invariant
            j <= line_hits_v.len() == h.len(),
            forall|q: int| 0 <= q < h.len() ==> line_hits_v@[q] == h[q],
            threshold == th,
            hit_idx@.len() == hit_cnt@.len() == hit_lines(h, th, j as int).len(),
            forall|q: int|
                0 <= q < hit_idx@.len() ==> hit_idx@[q] == hit_lines(h, th, j as int)[q].0
                    && hit_cnt@[q] == hit_lines(h, th, j as int)[q].1,
        decreases line_hits_v.len() - j,
    {
        if line_hits_v[j] >= threshold {
            hit_idx.push(j);
            hit_cnt.push(line_hits_v[j]);
        }
        j = j + 1;
    }
    proof {
        lemma_hit_lines(h, th, h.len() as int);
    }
    if hit_idx.len() == 0 {
        return (0, 0, String::new());
    }
    let ghost nlines = ls.len() as int;
    let ghost per = toks.len() as int;
    proof {
        assert forall|q: int| 0 <= q < h.len() implies h[q] <= per by {
            if q < llv.len() {
                lemma_hit_count_bound(llv[q], distinct(toks));
            }
        }
    }
    let mut best_start = hit_idx[0];
    let mut best_end = hit_idx[0];
    let mut best_score: usize = 0;
    let mut curr_start = hit_idx[0];
    let mut curr_end = hit_idx[0];
    let mut curr_score = hit_cnt[0];
    proof {
        assert(hlv[0].1 <= per);
        assert(curr_score <= 1 * per) by (nonlinear_arith)
            requires
                curr_score <= per,
        ;
    }
    let mut k: usize = 1;
    while k < hit_idx.len()
        invariant
            1 <= k <= hit_idx.len() == hit_cnt.len() == hlv.len(),
            hlv.len() <= nlines,
            nlines * per <= usize::MAX,
            0 <= per,
            forall|q: int|
                0 <= q < hlv.len() ==> hit_idx@[q] == hlv[q].0 && hit_cnt@[q] == hlv[q].1 && 0
                    <= hlv[q].0 < nlines && hlv[q].1 <= per,
            forall|a: int, b: int| 0 <= a < b < hlv.len() ==> (#[trigger] hlv[a]).0 < (
            #[trigger] hlv[b]).0,
            clusters(hlv, k as int) == (Clusters {
                best: (best_start as int, best_end as int, best_score as int),
                cur: (curr_start as int, curr_end as int, curr_score as int),
            }),
            curr_end == hlv[k - 1].0,
            best_score <= k * per,
            curr_score <= k * per,
            best_start <= best_end < nlines,
            curr_start <= curr_end < nlines,
        decreases hit_idx.len() - k,
    {
        let line_idx = hit_idx[k];
        let hits = hit_cnt[k];
        assert(hlv[k - 1].0 < hlv[k as int].0);
        proof {
            lemma_score_bound(curr_score as int, k as int, per, hits as int, nlines);
            assert(k * per <= (k + 1) * per) by (nonlinear_arith)
                requires
                    0 <= per,
            ;
        }
        if line_idx - curr_end <= 5 {
            curr_end = line_idx;
            curr_score = curr_score + hits;
        } else {
            if curr_score > best_score {
                best_score = curr_score;
                best_start = curr_start;
                best_end = curr_end;
            }
            curr_start = line_idx;
            curr_end = line_idx;
            curr_score = hits;
            proof {
                assert(hits <= (k + 1) * per) by (nonlinear_arith)
                    requires
                        hits <= per,
                        0 <= per,
                        k >= 1,
                ;
            }
        }
        k = k + 1;
    }
    if curr_score > best_score {
        best_start = curr_start;
        best_end = curr_end;
    }
    assert(best_cluster(hlv) == (best_start as int, best_end as int));
    if best_end - best_start >= 15 {
        let mut peak_in_block = best_start;
        let mut local_max: usize = 0;
        let mut q = best_start;
        while q <= best_end
            invariant
                best_start <= q <= best_end + 1,
                best_end < nlines == line_hits_v.len() == h.len(),
                forall|x: int| 0 <= x < h.len() ==> line_hits_v@[x] == h[x],
                peak(h, best_start as int, q as int) == (peak_in_block as int, local_max as nat),
                best_start <= peak_in_block <= best_end,
            decreases best_end + 1 - q,
        {
            if line_hits_v[q] > local_max {
                local_max = line_hits_v[q];
                peak_in_block = q;
            }
            q = q + 1;
        }
        best_start = if peak_in_block >= 5 {
            peak_in_block - 5
        } else {
            0
        };
        best_end = if best_end >= 10 && peak_in_block < best_end - 10 {
            peak_in_block + 10
        } else {
            best_end
        };
    }
    assert(block_range(h, hlv) == (best_start as int, best_end as int));
    let mut block = String::new();
    let mut x = best_start;
    while x <= best_end
        invariant
            best_start <= x <= best_end + 1,
            best_end < ls.len(),
            lsv == ls@.map_values(|w: Vec<char>| w@),
            block@ == join_lines(lsv.subrange(best_start as int, x as int)),
        decreases best_end + 1 - x,
    {
        let ghost prev = lsv.subrange(best_start as int, x as int);
        if x > best_start {
            push_char(&mut block, '\n');
        }
        push_chars(&mut block, &ls[x]);
        assert(lsv.subrange(best_start as int, x + 1).drop_last() =~= prev);
        x = x + 1;
    }
    (best_start + 1, best_end + 1, block)
}

/// Whether the dense block of `content` can be cut for these query tokens.
pub fn is_dense_block_defined(content: &str, query_tokens: &Vec<String>) -> (r: bool)
    ensures
        r == dense_block_defined(content@, views(query_tokens@)),
{
    let chars = chars_of(content);
    let lower = to_lowercase(content);
    let lower_chars = chars_of(lower.as_str());
    let ls = lines_exec(&chars);
    let lls = lines_exec(&lower_chars);
    assert(ls@.len() == lines(content@).len());
    assert(lls@.len() == lines(lowercase(content@)).len());
    if lls.len() > ls.len() {
        return false;
    }
    let n = ls.len() as u128;
    let t = query_tokens.len() as u128;
    assert(n * t <= usize::MAX * usize::MAX) by (nonlinear_arith)
        requires
            n <= usize::MAX,
            t <= usize::MAX,
    ;
    assert(usize::MAX * usize::MAX < u128::MAX) by (nonlinear_arith);
    n * t <= usize::MAX as u128
}

// ---------------------------------------------------------------------------
// The snippet.
// ---------------------------------------------------------------------------

/// The number of bytes of the UTF-8 encoding of `c`.
pub open spec fn utf8_width(c: char) -> nat {
    let u = c as u32;
    if u < 0x80 {
        1
    } else if u < 0x800 {
        2
    } else if u < 0x10000 {
        3
    } else {
        4
    }
}

/// The number of bytes of the UTF-8 encoding of `s`.
pub open spec fn utf8_len(s: Seq<char>) -> nat
    decreases s.len(),
{
    if s.len() == 0 {
        0
    } else {
        utf8_len(s.drop_last()) + utf8_width(s.last())
    }
}

/// The position in `lower` of the first of `toks[k..]`, taken in order, that occurs in it.
pub open spec fn first_hit_from(lower: Seq<char>, toks: Seq<Seq<char>>, k: int) -> Option<nat>
    decreases toks.len() - k,
{
    if k < 0 || k >= toks.len() {
        None
    } else {
        match find(lower, toks[k]) {
            Some(p) => Some(p),
            None => first_hit_from(lower, toks, k + 1),
        }
    }
}

/// The byte offset, in the lowercased content, of the first query token found
/// there (0 when none is).
pub open spec fn snippet_byte_offset(content: Seq<char>, toks: Seq<Seq<char>>) -> nat {
    let lower = lowercase(content);
    match first_hit_from(lower, toks, 0) {
        Some(p) => utf8_len(lower.take(p as int)),
        None => 0,
    }
}

/// The first `m >= i` such that the first `m` characters of `s` take `b` bytes.
pub open spec fn char_index_from(s: Seq<char>, b: nat, i: nat) -> Option<nat>
    decreases s.len() + 1 - i,
{
    if i > s.len() {
        None
    } else if utf8_len(s.take(i as int)) == b {
        Some(i)
    } else {
        char_index_from(s, b, i + 1)
    }
}

/// The number of characters of `s` that take exactly `b` bytes, when `b` is a
/// character boundary of `s`.
pub open spec fn char_index_at_byte(s: Seq<char>, b: nat) -> Option<nat> {
    char_index_from(s, b, 0)
}

/// The snippet's centre is a character boundary of the content: the byte offset
/// found in the lowercased content can be used to cut the content itself.
pub open spec fn snippet_defined(content: Seq<char>, toks: Seq<Seq<char>>) -> bool {
    char_index_at_byte(content, snippet_byte_offset(content, toks)) is Some
}

/// `s` with every `'\n'` turned into a space and every `'\r'` dropped.
pub open spec fn clean_breaks(s: Seq<char>) -> Seq<char>
    decreases s.len(),
{
    if s.len() == 0 {
        Seq::empty()
    } else if s.last() == '\r' {
        clean_breaks(s.drop_last())
    } else {
        clean_breaks(s.drop_last()).push(
            if s.last() == '\n' {
                ' '
            } else {
                s.last()
            },
        )
    }
}

/// The window `[start, end)` of at most 120 characters starting 30 characters
/// before position `ci`.
pub open spec fn snippet_window(len: nat, ci: nat) -> (nat, nat) {
    let start: nat = if ci > 30 {
        (ci - 30) as nat
    } else {
        0
    };
    let end: nat = if start + 120 < len {
        start + 120
    } else {
        len
    };
    (start, end)
}

pub open spec fn ellipsis() -> Seq<char> {
    seq!['.', '.', '.']
}

/// The snippet shown for a hit: the window around the first query token, line
/// breaks flattened, trimmed, with `...` where text was cut away.
pub open spec fn snippet(content: Seq<char>, toks: Seq<Seq<char>>) -> Seq<char> {
    let ci = char_index_at_byte(content, snippet_byte_offset(content, toks))->0;
    let (start, end) = snippet_window(content.len(), ci);
    let body = trim(clean_breaks(content.subrange(start as int, end as int)));
    let pre = if start > 0 {
        ellipsis() + body
    } else {
        body
    };
    if end < content.len() {
        pre + ellipsis()
    } else {
        pre
    }
}

proof fn lemma_char_index_from(s: Seq<char>, b: nat, i: nat)
    ensures
        match char_index_from(s, b, i) {
            Some(m) => i <= m <= s.len() && utf8_len(s.take(m as int)) == b && forall|j: int|
                i <= j < m ==> utf8_len(#[trigger] s.take(j)) != b,
            None => forall|j: int| i <= j <= s.len() ==> utf8_len(#[trigger] s.take(j)) != b,
        },
    decreases s.len() + 1 - i,
{
    if i <= s.len() && utf8_len(s.take(i as int)) != b {
        lemma_char_index_from(s, b, i + 1);
    }
}

proof fn lemma_first_hit_from(lower: Seq<char>, toks: Seq<Seq<char>>, k: int)
    requires
        0 <= k,
    ensures
        match first_hit_from(lower, toks, k) {
            Some(p) => p <= lower.len(),
            None => true,
        },
    decreases toks.len() - k,
{
    if k < toks.len() {
        crate::text::lemma_find_from(lower, toks[k], 0);
        if find(lower, toks[k]) is None {
            lemma_first_hit_from(lower, toks, k + 1);
        }
    }
}

fn utf8_width_exec(c: char) -> (w: u128)
    ensures
        w == utf8_width(c),
        1 <= w <= 4,
{
    let u = c as u32;
    if u < 0x80 {
        1
    } else if u < 0x800 {
        2
    } else if u < 0x10000 {
        3
    } else {
        4
    }
}

fn utf8_len_prefix(s: &Vec<char>, n: usize) -> (b: u128)
    requires
        n <= s.len(),
    ensures
        b == utf8_len(s@.take(n as int)),
        b <= 4 * n,
{
    let mut acc: u128 = 0;
    let mut i: usize = 0;
    while i < n
        invariant
            i <= n <= s.len(),
            acc == utf8_len(s@.take(i as int)),
            acc <= 4 * i,
        decreases n - i,
    {
        assert(s@.take(i + 1).drop_last() =~= s@.take(i as int));
        acc = acc + utf8_width_exec(s[i]);
        i = i + 1;
    }
    acc
}

fn first_hit(lower: &Vec<char>, toks: &Vec<Vec<char>>) -> (r: Option<usize>)
    ensures
        r == (match first_hit_from(lower@, toks@.map_values(|w: Vec<char>| w@), 0) {
            Some(p) => Some(p as usize),
            None => None::<usize>,
        }),
        r matches Some(p) ==> p <= lower.len(),
{
    let ghost tv = toks@.map_values(|w: Vec<char>| w@);
    let mut k: usize = 0;
    while k < toks.len()
        invariant
            k <= toks.len(),
            tv == toks@.map_values(|w: Vec<char>| w@),
            first_hit_from(lower@, tv, 0) == first_hit_from(lower@, tv, k as int),
        decreases toks.len() - k,
    {
        assert(tv[k as int] == toks@[k as int]@);
        match find_exec(lower, &toks[k]) {
            Some(p) => {
                proof {
                    crate::text::lemma_find_from(lower@, tv[k as int], 0);
                }
                return Some(p);
            },
            None => {},
        }
        k = k + 1;
    }
    None
}

/// The number of content characters before the snippet's centre, or `None`
/// when the offset found in the lowercased content is not a character boundary
/// of the content.
fn snippet_center(content: &Vec<char>, lower: &Vec<char>, toks: &Vec<Vec<char>>) -> (r: Option<
    usize,
>)
    ensures
        r == (match char_index_at_byte(
            content@,
            match first_hit_from(lower@, toks@.map_values(|w: Vec<char>| w@), 0) {
                Some(p) => utf8_len(lower@.take(p as int)),
                None => 0,
            },
        ) {
            Some(m) => Some(m as usize),
            None => None::<usize>,
        }),
{
    let fh = first_hit(lower, toks);
    let b: u128 = match fh {
        Some(p) => utf8_len_prefix(lower, p),
        None => 0,
    };
    proof {
        lemma_char_index_from(content@, b as nat, 0);
    }
    let ghost bspec: nat = match first_hit_from(lower@, toks@.map_values(|w: Vec<char>| w@), 0) {
        Some(p) => utf8_len(lower@.take(p as int)),
        None => 0,
    };
    proof {
        lemma_first_hit_from(lower@, toks@.map_values(|w: Vec<char>| w@), 0);
        match first_hit_from(lower@, toks@.map_values(|w: Vec<char>| w@), 0) {
            Some(q) => {
                assert(fh == Some(q as usize));
                assert(b == utf8_len(lower@.take(q as int)));
            },
            None => {
                assert(fh is None);
            },
        }
    }
    assert(b == bspec);
    let mut acc: u128 = 0;
    let mut m: usize = 0;
    while m < content.len()
        invariant
            b == bspec,
            bspec == (match first_hit_from(lower@, toks@.map_values(|w: Vec<char>| w@), 0) {
                Some(p) => utf8_len(lower@.take(p as int)),
                None => 0,
            }),
            m <= content.len(),
            acc == utf8_len(content@.take(m as int)),
            acc <= 4 * m,
            forall|j: int| 0 <= j < m ==> utf8_len(#[trigger] content@.take(j)) != b,
        decreases content.len() - m,
    {
        if acc == b {
            proof {
                lemma_char_index_from(content@, bspec, 0);
                let r = char_index_at_byte(content@, bspec);
                if r is Some {
                    let mm = r->0;
                    if mm < m {
                        assert(utf8_len(content@.take(mm as int)) != b);
                    }
                    if mm > m {
                        assert(utf8_len(content@.take(m as int)) != bspec);
                    }
                } else {
                    assert(utf8_len(content@.take(m as int)) != bspec);
                }
                assert(r == Some(m as nat));
            }
            return Some(m);
        }
        assert(content@.take(m + 1).drop_last() =~= content@.take(m as int));
        acc = acc + utf8_width_exec(content[m]);
        m = m + 1;
    }
    proof {
        lemma_char_index_from(content@, b as nat, 0);
    }
    if acc == b {
        return Some(m);
    }
    None
}

fn token_chars(toks: &Vec<String>) -> (r: Vec<Vec<char>>)
    ensures
        r@.map_values(|w: Vec<char>| w@) == views(toks@),
{
    let mut r: Vec<Vec<char>> = Vec::new();
    let mut k: usize = 0;
    while k < toks.len()
        invariant
            k <= toks.len(),
            r@.map_values(|w: Vec<char>| w@) == views(toks@).take(k as int),
        decreases toks.len() - k,
    {
        let t = chars_of(toks[k].as_str());
        assert(views(toks@)[k as int] == toks@[k as int]@);
        let ghost before = r@.map_values(|w: Vec<char>| w@);
        r.push(t);
        assert(r@.map_values(|w: Vec<char>| w@) =~= before.push(t@));
        assert(views(toks@).take(k + 1) =~= views(toks@).take(k as int).push(views(toks@)[k as int]));
        k = k + 1;
    }
    assert(views(toks@).take(toks.len() as int) =~= views(toks@));
    r
}

/// Whether a snippet of `content` can be cut for these query tokens.
pub fn is_snippet_defined(content: &str, query_tokens: &Vec<String>) -> (r: bool)
    ensures
        r == snippet_defined(content@, views(query_tokens@)),
{
    let chars = chars_of(content);
    let lower = to_lowercase(content);
    let lower_chars = chars_of(lower.as_str());
    let toks = token_chars(query_tokens);
    snippet_center(&chars, &lower_chars, &toks).is_some()
}

/// A short excerpt of `content` around the first query token.
pub fn extract_snippet(content: &str, query_tokens: &Vec<String>) -> (r: String)
    requires
        snippet_defined(content@, views(query_tokens@)),
    ensures
        r@ == snippet(content@, views(query_tokens@)),
{
    let chars = chars_of(content);
    let lower = to_lowercase(content);
    let lower_chars = chars_of(lower.as_str());
    let toks = token_chars(query_tokens);
    let char_idx = match snippet_center(&chars, &lower_chars, &toks) {
        Some(m) => m,
        None => 0,
    };
    let start: usize = if char_idx > 30 {
        char_idx - 30
    } else {
        0
    };
    let end: usize = if start < chars.len() && chars.len() - start > 120 {
        start + 120
    } else {
        chars.len()
    };
    proof {
        lemma_char_index_from(chars@, snippet_byte_offset(content@, views(query_tokens@)), 0);
    }
    let ghost window = chars@.subrange(start as int, end as int);
    let mut cleaned: Vec<char> = Vec::new();
    let mut i = start;
    while i < end
        invariant
            start <= i <= end <= chars.len(),
            window == chars@.subrange(start as int, end as int),
            cleaned@ == clean_breaks(chars@.subrange(start as int, i as int)),
        decreases end - i,
    {
        let c = chars[i];
        assert(chars@.subrange(start as int, i + 1).drop_last() =~= chars@.subrange(
            start as int,
            i as int,
        ));
        if c == '\r' {
        } else if c == '\n' {
            cleaned.push(' ');
        } else {
            cleaned.push(c);
        }
        i = i + 1;
    }
    let body = trim_exec(&cleaned);
    let mut out = String::new();
    if start > 0 {
        push_char(&mut out, '.');
        push_char(&mut out, '.');
        push_char(&mut out, '.');
    }
    push_chars(&mut out, &body);
    if end < chars.len() {
        push_char(&mut out, '.');
        push_char(&mut out, '.');
        push_char(&mut out, '.');
    }
    assert(out@ =~= snippet(content@, views(query_tokens@)));
    out
}


proof fn lemma_hit_lines_shape(h: Seq<nat>, th: nat, n: int)
    requires
        n <= h.len(),
    ensures
        forall|i: int|
            0 <= i < hit_lines(h, th, n).len() ==> 0 <= (#[trigger] hit_lines(h, th, n)[i]).0 < n,
        forall|i: int, j: int|
            0 <= i < j < hit_lines(h, th, n).len() ==> (#[trigger] hit_lines(h, th, n)[i]).0
                < (#[trigger] hit_lines(h, th, n)[j]).0,
    decreases n,
{
    if n > 0 {
        lemma_hit_lines_shape(h, th, n - 1);
        let r = hit_lines(h, th, n - 1);
        let q = hit_lines(h, th, n);
        assert forall|i: int| 0 <= i < q.len() implies 0 <= (#[trigger] q[i]).0 < n by {
            if i < r.len() {
                assert(q[i] == r[i]);
            }
        }
        assert forall|i: int, j: int| 0 <= i < j < q.len() implies (#[trigger] q[i]).0
            < (#[trigger] q[j]).0 by {
            assert(q[i] == r[i]);
            if j < r.len() {
                assert(q[j] == r[j]);
            }
        }
    }
}

/// The clusters lie in order within the hit lines seen so far.
proof fn lemma_clusters_shape(hl: Seq<(int, nat)>, k: int, n: int)
    requires
        1 <= k <= hl.len(),
        forall|i: int| 0 <= i < hl.len() ==> 0 <= (#[trigger] hl[i]).0 < n,
        forall|i: int, j: int| 0 <= i < j < hl.len() ==> (#[trigger] hl[i]).0 < (#[trigger] hl[j]).0,
    ensures
        0 <= clusters(hl, k).best.0 <= clusters(hl, k).best.1 < n,
        0 <= clusters(hl, k).cur.0 <= clusters(hl, k).cur.1 < n,
        clusters(hl, k).cur.1 == hl[k - 1].0,
    decreases k,
{
    if k > 1 {
        lemma_clusters_shape(hl, k - 1, n);
        assert(hl[k - 2].0 < hl[k - 1].0);
    }
}

proof fn lemma_peak_in_range(h: Seq<nat>, lo: int, j: int)
    requires
        lo < j,
    ensures
        lo <= peak(h, lo, j).0 < j,
    decreases j - lo,
{
    if j - 1 > lo {
        lemma_peak_in_range(h, lo, j - 1);
    } else {
        assert(peak(h, lo, lo).0 == lo);
    }
}

/// The dense block is either empty, `(0, 0, "")`, or a run of at most 16
/// lines of the document, numbered from 1.
pub proof fn lemma_dense_block_bounds(content: Seq<char>, toks: Seq<Seq<char>>)
    ensures
        dense_block(content, toks).0 == 0 ==> dense_block(content, toks).1 == 0,
        dense_block(content, toks).0 != 0 ==> {
            &&& 1 <= dense_block(content, toks).0 <= dense_block(content, toks).1
            &&& dense_block(content, toks).1 <= lines(content).len()
            &&& dense_block(content, toks).1 - dense_block(content, toks).0 <= 15
        },
{
    let h = line_hits(content, toks);
    let m = seq_max(h);
    let n = h.len() as int;
    let hl = hit_lines(h, hit_threshold(m), n);
    if m != 0 && hl.len() != 0 {
        lemma_hit_lines_shape(h, hit_threshold(m), n);
        lemma_clusters_shape(hl, hl.len() as int, n);
        let (s0, e0) = best_cluster(hl);
        assert(0 <= s0 <= e0 < n);
        if e0 - s0 + 1 > 15 {
            lemma_peak_in_range(h, s0, e0 + 1);
        }
    }
}


proof fn lemma_clean_breaks_len(s: Seq<char>)
    ensures
        clean_breaks(s).len() <= s.len(),
    decreases s.len(),
{
    if s.len() > 0 {
        lemma_clean_breaks_len(s.drop_last());
    }
}

/// A snippet shows at most 120 characters of the document, with `...` on a
/// side where text was cut away.
pub proof fn lemma_snippet_length(content: Seq<char>, toks: Seq<Seq<char>>)
    requires
        snippet_defined(content, toks),
    ensures
        snippet(content, toks).len() <= 126,
{
    let ci = char_index_at_byte(content, snippet_byte_offset(content, toks))->0;
    let (start, end) = snippet_window(content.len(), ci);
    lemma_char_index_from(content, snippet_byte_offset(content, toks), 0);
    let piece = content.subrange(start as int, end as int);
    lemma_clean_breaks_len(piece);
    crate::text::lemma_ws_bounds(clean_breaks(piece));
}


proof fn lemma_hit_lines_entries(h: Seq<nat>, th: nat, n: int)
    requires
        n <= h.len(),
    ensures
        forall|k: int|
            0 <= k < hit_lines(h, th, n).len() ==> 0 <= (#[trigger] hit_lines(h, th, n)[k]).0 < n
                && h[hit_lines(h, th, n)[k].0] >= th,
        forall|i: int| 0 <= i < n && h[i] >= th ==> hit_lines(h, th, n).len() > 0,
    decreases n,
{
    if n > 0 {
        lemma_hit_lines_entries(h, th, n - 1);
        let r = hit_lines(h, th, n - 1);
        let q = hit_lines(h, th, n);
        assert forall|k: int| 0 <= k < q.len() implies 0 <= (#[trigger] q[k]).0 < n && h[q[k].0]
            >= th by {
            if k < r.len() {
                assert(q[k] == r[k]);
            }
        }
    }
}

/// The clusters start at hit lines.
proof fn lemma_clusters_start(hl: Seq<(int, nat)>, k: int)
    requires
        1 <= k <= hl.len(),
    ensures
        exists|a: int| 0 <= a < k && hl[a].0 == clusters(hl, k).best.0,
        exists|b: int| 0 <= b < k && hl[b].0 == clusters(hl, k).cur.0,
    decreases k,
{
    if k > 1 {
        lemma_clusters_start(hl, k - 1);
        let a = choose|a: int| 0 <= a < k - 1 && hl[a].0 == clusters(hl, k - 1).best.0;
        let b = choose|b: int| 0 <= b < k - 1 && hl[b].0 == clusters(hl, k - 1).cur.0;
        assert(hl[a].0 == clusters(hl, k - 1).best.0);
        assert(hl[b].0 == clusters(hl, k - 1).cur.0);
    } else {
        assert(hl[0].0 == clusters(hl, k).best.0);
    }
}

proof fn lemma_peak_max(h: Seq<nat>, lo: int, j: int)
    requires
        0 <= lo <= j <= h.len(),
    ensures
        forall|i: int| lo <= i < j ==> h[i] <= peak(h, lo, j).1,
        peak(h, lo, j).1 > 0 ==> h[peak(h, lo, j).0] == peak(h, lo, j).1,
    decreases j - lo,
{
    if j > lo {
        lemma_peak_max(h, lo, j - 1);
    }
}

/// The dense block is empty, `(0, 0, "")`, exactly when no line holds a
/// query token; otherwise at least one of its lines does.
pub proof fn lemma_dense_block_hits(content: Seq<char>, toks: Seq<Seq<char>>)
    ensures
        dense_block(content, toks).0 == 0 <==> forall|i: int|
            0 <= i < line_hits(content, toks).len() ==> #[trigger] line_hits(content, toks)[i] == 0,
        dense_block(content, toks).0 != 0 ==> exists|i: int|
            dense_block(content, toks).0 - 1 <= i <= dense_block(content, toks).1 - 1 && 0 <= i
                < line_hits(content, toks).len() && line_hits(content, toks)[i] > 0,
{
    let h = line_hits(content, toks);
    let m = seq_max(h);
    let n = h.len() as int;
    let th = hit_threshold(m);
    let hl = hit_lines(h, th, n);
    lemma_seq_max(h);
    lemma_hit_lines_entries(h, th, n);
    if m != 0 {
        let i = choose|i: int| 0 <= i < n && h[i] == m;
        assert(h[i] >= th);
        assert(hl.len() > 0);
        lemma_hit_lines_shape(h, th, n);
        lemma_clusters_shape(hl, hl.len() as int, n);
        lemma_clusters_start(hl, hl.len() as int);
        let st = clusters(hl, hl.len() as int);
        let (s0, e0) = best_cluster(hl);
        assert(h[s0] >= 1) by {
            if st.cur.2 > st.best.2 {
                let b = choose|b: int| 0 <= b < hl.len() && hl[b].0 == st.cur.0;
                assert(h[hl[b].0] >= th);
            } else {
                let a = choose|a: int| 0 <= a < hl.len() && hl[a].0 == st.best.0;
                assert(h[hl[a].0] >= th);
            }
        }
        assert(0 <= s0 <= e0 < n);
        if e0 - s0 + 1 > 15 {
            lemma_peak_in_range(h, s0, e0 + 1);
            lemma_peak_max(h, s0, e0 + 1);
            let p = peak(h, s0, e0 + 1).0;
            assert(h[p] > 0);
            assert(dense_block(content, toks).0 - 1 <= p <= dense_block(content, toks).1 - 1);
        } else {
            assert(h[s0] > 0);
        }
    } else {
        assert(forall|i: int| 0 <= i < n ==> #[trigger] h[i] == 0);
    }
}


/// `first_hit_from` in terms of occurrences: the first occurrence, in the
/// lowercased content, of the first of `toks[k..]` that occurs there at all.
proof fn lemma_first_hit_from_occurrence(lower: Seq<char>, toks: Seq<Seq<char>>, k: int)
    requires
        0 <= k,
    ensures
        forall|j: int, p: int|
            k <= j < toks.len() && matches_at(lower, toks[j], p) && (forall|i: int|
                k <= i < j ==> !contains(lower, #[trigger] toks[i])) && (forall|q: int|
                0 <= q < p ==> !matches_at(lower, toks[j], q)) ==> first_hit_from(lower, toks, k)
                == Some(p as nat),
        (forall|i: int| k <= i < toks.len() ==> !contains(lower, #[trigger] toks[i]))
            ==> first_hit_from(lower, toks, k) is None,
    decreases toks.len() - k,
{
    if k < toks.len() {
        lemma_first_hit_from_occurrence(lower, toks, k + 1);
        crate::text::lemma_find_from(lower, toks[k], 0);
        crate::text::lemma_find_is_some_iff_contains(lower, toks[k]);
        assert forall|j: int, p: int|
            k <= j < toks.len() && matches_at(lower, toks[j], p) && (forall|i: int|
                k <= i < j ==> !contains(lower, #[trigger] toks[i])) && (forall|q: int|
                0 <= q < p ==> !matches_at(lower, toks[j], q)) implies first_hit_from(
            lower,
            toks,
            k,
        ) == Some(p as nat) by {
            if j == k {
                let f = find(lower, toks[k])->0;
                assert(!(f < p));
                assert(!(p < f as int));
            } else {
                assert(!contains(lower, toks[k]));
                assert forall|i: int| k + 1 <= i < j implies !contains(lower, #[trigger] toks[i]) by {}
            }
        }
    }
}

/// The snippet is centred on a match in the lowercased content: when the
/// query token `toks[j]` is the first of the tokens that occur in
/// `lowercase(content)` at all, and `p` is its first position there, the
/// snippet's centre is the byte offset of position `p` in the lowercased
/// content. When no token occurs in the lowercased content the centre is the
/// start.
pub proof fn lemma_snippet_centre(content: Seq<char>, toks: Seq<Seq<char>>)
    ensures
        forall|j: int, p: int|
            0 <= j < toks.len() && matches_at(lowercase(content), toks[j], p) && (forall|i: int|
                0 <= i < j ==> !contains(lowercase(content), #[trigger] toks[i])) && (forall|q: int|
                0 <= q < p ==> !matches_at(lowercase(content), toks[j], q))
                ==> snippet_byte_offset(content, toks) == utf8_len(lowercase(content).take(p)),
        (forall|i: int| 0 <= i < toks.len() ==> !contains(lowercase(content), #[trigger] toks[i]))
            ==> snippet_byte_offset(content, toks) == 0,
{
    lemma_first_hit_from_occurrence(lowercase(content), toks, 0);
}


// ---------------------------------------------------------------------------
// The dense block comes from the busiest cluster of hit lines.
// ---------------------------------------------------------------------------

/// Line `i` counts for the dense block: it has at least `th` hits.
pub open spec fn hit_at(h: Seq<nat>, th: nat, i: int) -> bool {
    0 <= i < h.len() && h[i] >= th
}

/// Lines `a..=b` make one run of hit lines: both ends are hit lines, and
/// between any two of its hit lines more than 5 lines apart lies another one.
pub open spec fn linked_run(h: Seq<nat>, th: nat, a: int, b: int) -> bool {
    &&& a <= b
    &&& hit_at(h, th, a)
    &&& hit_at(h, th, b)
    &&& forall|i: int, j: int|
        #![trigger hit_at(h, th, i), hit_at(h, th, j)]
        a <= i < j <= b && hit_at(h, th, i) && hit_at(h, th, j) && j - i > 5 ==> exists|y: int|
            i < y < j && #[trigger] hit_at(h, th, y)
}

/// A cluster: a run of hit lines that no hit line within 5 lines before or
/// after it extends.
pub open spec fn is_cluster(h: Seq<nat>, th: nat, a: int, b: int) -> bool {
    &&& linked_run(h, th, a, b)
    &&& forall|y: int| a - 5 <= y < a ==> !#[trigger] hit_at(h, th, y)
    &&& forall|y: int| b < y <= b + 5 ==> !#[trigger] hit_at(h, th, y)
}

/// The hits of the hit lines among lines `a..=b`.
pub open spec fn run_hits(h: Seq<nat>, th: nat, a: int, b: int) -> int
    decreases b - a + 1,
{
    if b < a {
        0
    } else {
        run_hits(h, th, a, b - 1) + if hit_at(h, th, b) {
            h[b] as int
        } else {
            0int
        }
    }
}

/// Lines `a..=b` are a cluster with the most hits, and the first such.
pub open spec fn busiest_cluster(h: Seq<nat>, th: nat, a: int, b: int) -> bool {
    &&& is_cluster(h, th, a, b)
    &&& forall|a2: int, b2: int|
        #[trigger] is_cluster(h, th, a2, b2) ==> run_hits(h, th, a2, b2) <= run_hits(h, th, a, b)
            && (run_hits(h, th, a2, b2) == run_hits(h, th, a, b) ==> a <= a2)
}

/// Line `p` is the first of lines `a..=b` with the most hits.
pub open spec fn is_peak(h: Seq<nat>, a: int, b: int, p: int) -> bool {
    &&& a <= p <= b
    &&& forall|i: int| a <= i <= b ==> h[i] <= h[p]
    &&& forall|i: int| a <= i < p ==> h[i] < h[p]
}

spec fn close_after(hl: Seq<(int, nat)>, t: int) -> bool {
    hl[t + 1].0 - hl[t].0 <= 5
}

spec fn hsum(hl: Seq<(int, nat)>, p: int, q: int) -> int
    decreases q - p + 1,
{
    if q < p {
        0
    } else {
        hsum(hl, p, q - 1) + hl[q].1
    }
}

spec fn hl_cluster(hl: Seq<(int, nat)>, p: int, q: int) -> bool {
    &&& 0 <= p <= q < hl.len()
    &&& forall|t: int| p <= t < q ==> #[trigger] close_after(hl, t)
    &&& p == 0 || !close_after(hl, p - 1)
    &&& q == hl.len() - 1 || !close_after(hl, q)
}

spec fn hl_ok(hl: Seq<(int, nat)>, h: Seq<nat>, th: nat) -> bool {
    &&& th >= 1
    &&& forall|t: int|
        0 <= t < hl.len() ==> 0 <= (#[trigger] hl[t]).0 < h.len() && hl[t].1 == h[hl[t].0]
            && h[hl[t].0] >= th
    &&& forall|t: int, u: int| 0 <= t < u < hl.len() ==> (#[trigger] hl[t]).0 < (#[trigger] hl[u]).0
    &&& forall|i: int|
        #[trigger] hit_at(h, th, i) ==> exists|t: int| 0 <= t < hl.len() && (#[trigger] hl[t]).0 == i
}

proof fn lemma_hit_lines_values(h: Seq<nat>, th: nat, n: int)
    requires
        n <= h.len(),
    ensures
        forall|t: int|
            0 <= t < hit_lines(h, th, n).len() ==> (#[trigger] hit_lines(h, th, n)[t]).1
                == h[hit_lines(h, th, n)[t].0],
        forall|i: int|
            0 <= i < n && h[i] >= th ==> exists|t: int|
                0 <= t < hit_lines(h, th, n).len() && (#[trigger] hit_lines(h, th, n)[t]).0 == i,
    decreases n,
{
    if n > 0 {
        lemma_hit_lines_values(h, th, n - 1);
        let r = hit_lines(h, th, n - 1);
        let q = hit_lines(h, th, n);
        assert forall|t: int| 0 <= t < q.len() implies (#[trigger] q[t]).1 == h[q[t].0] by {
            if t < r.len() {
                assert(q[t] == r[t]);
            }
        }
        assert forall|i: int| 0 <= i < n && h[i] >= th implies exists|t: int|
            0 <= t < q.len() && (#[trigger] q[t]).0 == i by {
            if i < n - 1 {
                let t = choose|t: int| 0 <= t < r.len() && (#[trigger] r[t]).0 == i;
                assert(q[t] == r[t]);
            } else {
                assert(q[r.len() as int].0 == i);
            }
        }
    }
}

proof fn lemma_hit_lines_ok(h: Seq<nat>, th: nat)
    requires
        th >= 1,
    ensures
        hl_ok(hit_lines(h, th, h.len() as int), h, th),
{
    let n = h.len() as int;
    let hl = hit_lines(h, th, n);
    lemma_hit_lines_shape(h, th, n);
    lemma_hit_lines_entries(h, th, n);
    lemma_hit_lines_values(h, th, n);
    assert forall|i: int| #[trigger] hit_at(h, th, i) implies exists|t: int|
        0 <= t < hl.len() && (#[trigger] hl[t]).0 == i by {
        assert(0 <= i < n && h[i] >= th);
    }
}

proof fn lemma_hsum_pos(hl: Seq<(int, nat)>, p: int, q: int)
    requires
        forall|t: int| 0 <= t < hl.len() ==> (#[trigger] hl[t]).1 >= 1,
        0 <= p,
        q < hl.len(),
    ensures
        hsum(hl, p, q) >= 0,
        p <= q ==> hsum(hl, p, q) >= 1,
    decreases q - p + 1,
{
    if p <= q {
        lemma_hsum_pos(hl, p, q - 1);
    }
}

/// A maximal run of close hit lines is the only cluster that ends within it.
proof fn lemma_run_unique(hl: Seq<(int, nat)>, c: int, e: int, p: int, q: int)
    requires
        0 <= c <= e < hl.len(),
        forall|t: int| c <= t < e ==> #[trigger] close_after(hl, t),
        c == 0 || !close_after(hl, c - 1),
        e == hl.len() - 1 || !close_after(hl, e),
        hl_cluster(hl, p, q),
        c <= q <= e,
    ensures
        p == c,
        q == e,
{
    if p < c {
        assert(close_after(hl, c - 1));
    }
    if p > c {
        assert(close_after(hl, p - 1));
    }
    if q < e {
        assert(close_after(hl, q));
    }
}

/// The clustering after `k` hit lines: the current cluster started at hit
/// line `c`, and the best one so far is the first with the most hits among
/// the clusters closed before it.
proof fn lemma_clusters_inv(hl: Seq<(int, nat)>, k: int) -> (r: (int, int, int))
    requires
        1 <= k <= hl.len(),
        forall|t: int| 0 <= t < hl.len() ==> (#[trigger] hl[t]).1 >= 1,
    ensures
        0 <= r.0 <= k - 1,
        forall|t: int| r.0 <= t < k - 1 ==> #[trigger] close_after(hl, t),
        r.0 == 0 || !close_after(hl, r.0 - 1),
        clusters(hl, k).cur == (hl[r.0].0, hl[k - 1].0, hsum(hl, r.0, k - 1)),
        r.0 == 0 ==> clusters(hl, k).best.2 == 0,
        r.0 > 0 ==> hl_cluster(hl, r.1, r.2) && r.2 < r.0 && clusters(hl, k).best == (
            hl[r.1].0,
            hl[r.2].0,
            hsum(hl, r.1, r.2),
        ),
        forall|p: int, q: int|
            #[trigger] hl_cluster(hl, p, q) && q < r.0 ==> hsum(hl, p, q) <= clusters(hl, k).best.2
                && (hsum(hl, p, q) == clusters(hl, k).best.2 ==> r.1 <= p),
    decreases k,
{
    if k == 1 {
        assert(hsum(hl, 0, -1) == 0);
        assert(hsum(hl, 0, 0) == hl[0].1);
        (0, 0, 0)
    } else {
        let (c, ps, qs) = lemma_clusters_inv(hl, k - 1);
        let st0 = clusters(hl, k - 1);
        let st = clusters(hl, k);
        assert(st == cluster_step(st0, hl[k - 1]));
        lemma_hsum_pos(hl, c, k - 2);
        assert(hsum(hl, c, k - 1) == hsum(hl, c, k - 2) + hl[k - 1].1);
        assert(hsum(hl, k - 1, k - 2) == 0);
        assert(hsum(hl, k - 1, k - 1) == hl[k - 1].1);
        if close_after(hl, k - 2) {
            assert forall|t: int| c <= t < k - 1 implies #[trigger] close_after(hl, t) by {}
            (c, ps, qs)
        } else {
            assert(hl_cluster(hl, c, k - 2));
            if st0.cur.2 > st0.best.2 {
                assert forall|p: int, q: int| #[trigger]
                    hl_cluster(hl, p, q) && q < k - 1 implies hsum(hl, p, q) <= st.best.2 && (
                hsum(hl, p, q) == st.best.2 ==> c <= p) by {
                    if q >= c {
                        lemma_run_unique(hl, c, k - 2, p, q);
                    }
                }
                (k - 1, c, k - 2)
            } else {
                assert(c > 0);
                assert forall|p: int, q: int| #[trigger]
                    hl_cluster(hl, p, q) && q < k - 1 implies hsum(hl, p, q) <= st.best.2 && (
                hsum(hl, p, q) == st.best.2 ==> ps <= p) by {
                    if q >= c {
                        lemma_run_unique(hl, c, k - 2, p, q);
                    }
                }
                (k - 1, ps, qs)
            }
        }
    }
}

/// The cluster `best_cluster` picks is the first with the most hits.
proof fn lemma_best_cluster(hl: Seq<(int, nat)>) -> (r: (int, int))
    requires
        hl.len() >= 1,
        forall|t: int| 0 <= t < hl.len() ==> (#[trigger] hl[t]).1 >= 1,
    ensures
        hl_cluster(hl, r.0, r.1),
        best_cluster(hl) == (hl[r.0].0, hl[r.1].0),
        forall|p: int, q: int|
            #[trigger] hl_cluster(hl, p, q) ==> hsum(hl, p, q) <= hsum(hl, r.0, r.1) && (hsum(
                hl,
                p,
                q,
            ) == hsum(hl, r.0, r.1) ==> r.0 <= p),
{
    let n = hl.len() as int;
    let (c, ps, qs) = lemma_clusters_inv(hl, n);
    let st = clusters(hl, n);
    lemma_hsum_pos(hl, c, n - 1);
    if st.cur.2 > st.best.2 {
        assert forall|p: int, q: int| #[trigger] hl_cluster(hl, p, q) implies hsum(hl, p, q)
            <= hsum(hl, c, n - 1) && (hsum(hl, p, q) == hsum(hl, c, n - 1) ==> c <= p) by {
            if q >= c {
                lemma_run_unique(hl, c, n - 1, p, q);
            }
        }
        (c, n - 1)
    } else {
        assert(c > 0);
        assert forall|p: int, q: int| #[trigger] hl_cluster(hl, p, q) implies hsum(hl, p, q)
            <= hsum(hl, ps, qs) && (hsum(hl, p, q) == hsum(hl, ps, qs) ==> ps <= p) by {
            if q >= c {
                lemma_run_unique(hl, c, n - 1, p, q);
            }
        }
        (ps, qs)
    }
}

proof fn lemma_run_hits_skip(h: Seq<nat>, th: nat, a: int, b1: int, b2: int)
    requires
        a - 1 <= b1 <= b2,
        forall|y: int| b1 < y <= b2 ==> !#[trigger] hit_at(h, th, y),
    ensures
        run_hits(h, th, a, b2) == run_hits(h, th, a, b1),
    decreases b2 - b1,
{
    if b2 > b1 {
        assert(!hit_at(h, th, b2));
        lemma_run_hits_skip(h, th, a, b1, b2 - 1);
    }
}

proof fn lemma_run_hits_hl(hl: Seq<(int, nat)>, h: Seq<nat>, th: nat, p: int, q: int)
    requires
        hl_ok(hl, h, th),
        0 <= p <= q < hl.len(),
    ensures
        run_hits(h, th, hl[p].0, hl[q].0) == hsum(hl, p, q),
    decreases q - p,
{
    let a = hl[p].0;
    assert(hit_at(h, th, hl[q].0));
    if q == p {
        assert(run_hits(h, th, a, a - 1) == 0);
        assert(hsum(hl, p, p - 1) == 0);
    } else {
        lemma_run_hits_hl(hl, h, th, p, q - 1);
        assert(hl[q - 1].0 < hl[q].0);
        assert(hl[p].0 <= hl[q - 1].0) by {
            if p < q - 1 {
                assert(hl[p].0 < hl[q - 1].0);
            }
        }
        assert forall|y: int| hl[q - 1].0 < y <= hl[q].0 - 1 implies !#[trigger] hit_at(h, th, y) by {
            if hit_at(h, th, y) {
                let v = choose|v: int| 0 <= v < hl.len() && (#[trigger] hl[v]).0 == y;
                if v <= q - 1 {
                    if v < q - 1 {
                        assert(hl[v].0 < hl[q - 1].0);
                    }
                } else if v >= q {
                    if v > q {
                        assert(hl[q].0 < hl[v].0);
                    }
                }
            }
        }
        lemma_run_hits_skip(h, th, a, hl[q - 1].0, hl[q].0 - 1);
    }
}

/// A cluster of the hit-line list is a cluster of lines, with the same hits.
proof fn lemma_cluster_lines(hl: Seq<(int, nat)>, h: Seq<nat>, th: nat, p: int, q: int)
    requires
        hl_ok(hl, h, th),
        hl_cluster(hl, p, q),
    ensures
        is_cluster(h, th, hl[p].0, hl[q].0),
        run_hits(h, th, hl[p].0, hl[q].0) == hsum(hl, p, q),
{
    let a = hl[p].0;
    let b = hl[q].0;
    lemma_run_hits_hl(hl, h, th, p, q);
    assert(hit_at(h, th, a));
    assert(hit_at(h, th, b));
    if p < q {
        assert(a < b);
    }
    assert forall|i: int, j: int|
        #![trigger hit_at(h, th, i), hit_at(h, th, j)]
        a <= i < j <= b && hit_at(h, th, i) && hit_at(h, th, j) && j - i > 5 implies exists|y: int|
            i < y < j && #[trigger] hit_at(h, th, y) by {
        let t = choose|t: int| 0 <= t < hl.len() && (#[trigger] hl[t]).0 == i;
        let u = choose|u: int| 0 <= u < hl.len() && (#[trigger] hl[u]).0 == j;
        if u <= t {
            if u < t {
                assert(hl[u].0 < hl[t].0);
            }
        }
        if t < p {
            assert(hl[t].0 < hl[p].0);
        }
        if u > q {
            assert(hl[q].0 < hl[u].0);
        }
        assert(t < u && p <= t && u <= q);
        if u == t + 1 {
            assert(close_after(hl, t));
        }
        assert(hl[t].0 < hl[t + 1].0);
        assert(hl[t + 1].0 < hl[u].0);
        assert(hit_at(h, th, hl[t + 1].0));
    }
    assert forall|y: int| a - 5 <= y < a implies !#[trigger] hit_at(h, th, y) by {
        if hit_at(h, th, y) {
            let v = choose|v: int| 0 <= v < hl.len() && (#[trigger] hl[v]).0 == y;
            if v >= p {
                if v > p {
                    assert(hl[p].0 < hl[v].0);
                }
            } else {
                assert(!close_after(hl, p - 1));
                if v < p - 1 {
                    assert(hl[v].0 < hl[p - 1].0);
                }
            }
        }
    }
    assert forall|y: int| b < y <= b + 5 implies !#[trigger] hit_at(h, th, y) by {
        if hit_at(h, th, y) {
            let v = choose|v: int| 0 <= v < hl.len() && (#[trigger] hl[v]).0 == y;
            if v <= q {
                if v < q {
                    assert(hl[v].0 < hl[q].0);
                }
            } else {
                assert(!close_after(hl, q));
                if v > q + 1 {
                    assert(hl[q + 1].0 < hl[v].0);
                }
            }
        }
    }
}

/// A cluster of lines is a cluster of the hit-line list.
proof fn lemma_lines_cluster(hl: Seq<(int, nat)>, h: Seq<nat>, th: nat, a: int, b: int) -> (r: (
    int,
    int,
))
    requires
        hl_ok(hl, h, th),
        is_cluster(h, th, a, b),
    ensures
        hl_cluster(hl, r.0, r.1),
        hl[r.0].0 == a,
        hl[r.1].0 == b,
{
    assert(hit_at(h, th, a));
    assert(hit_at(h, th, b));
    let p = choose|t: int| 0 <= t < hl.len() && (#[trigger] hl[t]).0 == a;
    let q = choose|t: int| 0 <= t < hl.len() && (#[trigger] hl[t]).0 == b;
    if q < p {
        assert(hl[q].0 < hl[p].0);
    }
    assert forall|t: int| p <= t < q implies #[trigger] close_after(hl, t) by {
        let i = hl[t].0;
        let j = hl[t + 1].0;
        assert(hit_at(h, th, i));
        assert(hit_at(h, th, j));
        if p < t {
            assert(hl[p].0 < hl[t].0);
        }
        if t + 1 < q {
            assert(hl[t + 1].0 < hl[q].0);
        }
        assert(i < j);
        if j - i > 5 {
            let y = choose|y: int| i < y < j && #[trigger] hit_at(h, th, y);
            let v = choose|v: int| 0 <= v < hl.len() && (#[trigger] hl[v]).0 == y;
            if v <= t {
                if v < t {
                    assert(hl[v].0 < hl[t].0);
                }
            } else {
                if v > t + 1 {
                    assert(hl[t + 1].0 < hl[v].0);
                }
            }
        }
    }
    if p > 0 && close_after(hl, p - 1) {
        assert(hl[p - 1].0 < hl[p].0);
        assert(hit_at(h, th, hl[p - 1].0));
    }
    if q < hl.len() - 1 && close_after(hl, q) {
        assert(hl[q].0 < hl[q + 1].0);
        assert(hit_at(h, th, hl[q + 1].0));
    }
    (p, q)
}

proof fn lemma_peak_first(h: Seq<nat>, lo: int, j: int)
    requires
        0 <= lo <= j <= h.len(),
    ensures
        forall|i: int| lo <= i < peak(h, lo, j).0 ==> h[i] < peak(h, lo, j).1,
    decreases j - lo,
{
    if j > lo {
        lemma_peak_first(h, lo, j - 1);
        lemma_peak_max(h, lo, j - 1);
        if j - 1 > lo {
            lemma_peak_in_range(h, lo, j - 1);
        }
    }
}

/// The dense block comes from the busiest cluster of hit lines. A hit line
/// has at least the threshold of hits; a cluster is a maximal run of hit
/// lines with at most 4 lines between neighbours. The block is the first
/// cluster with the most hits, whole when it spans at most 15 lines, and
/// otherwise cut to 5 lines before and 10 after its first busiest line,
/// within the cluster's end.
pub proof fn lemma_dense_block_busiest(content: Seq<char>, toks: Seq<Seq<char>>)
    ensures
        dense_block(content, toks).0 != 0 ==> exists|a: int, b: int|
            {
                &&& #[trigger] busiest_cluster(
                    line_hits(content, toks),
                    hit_threshold(seq_max(line_hits(content, toks))),
                    a,
                    b,
                )
                &&& b - a < 15 ==> dense_block(content, toks).0 == a + 1 && dense_block(
                    content,
                    toks,
                ).1 == b + 1
                &&& b - a >= 15 ==> exists|p: int|
                    #[trigger] is_peak(line_hits(content, toks), a, b, p) && dense_block(
                        content,
                        toks,
                    ).0 == (if p >= 5 {
                        p - 5
                    } else {
                        0
                    }) + 1 && dense_block(content, toks).1 == (if p + 10 < b {
                        p + 10
                    } else {
                        b
                    }) + 1
            },
{
    let h = line_hits(content, toks);
    let m = seq_max(h);
    let th = hit_threshold(m);
    let n = h.len() as int;
    let hl = hit_lines(h, th, n);
    if m != 0 && hl.len() != 0 {
        lemma_hit_lines_ok(h, th);
        assert forall|t: int| 0 <= t < hl.len() implies (#[trigger] hl[t]).1 >= 1 by {}
        let (pp, qq) = lemma_best_cluster(hl);
        let a = hl[pp].0;
        let b = hl[qq].0;
        lemma_cluster_lines(hl, h, th, pp, qq);
        assert forall|a2: int, b2: int| #[trigger] is_cluster(h, th, a2, b2) implies run_hits(
            h,
            th,
            a2,
            b2,
        ) <= run_hits(h, th, a, b) && (run_hits(h, th, a2, b2) == run_hits(h, th, a, b) ==> a
            <= a2) by {
            let (p2, q2) = lemma_lines_cluster(hl, h, th, a2, b2);
            lemma_cluster_lines(hl, h, th, p2, q2);
            assert(hl_cluster(hl, p2, q2));
            if pp > p2 {
                assert(hl[p2].0 < hl[pp].0);
            }
        }
        assert(busiest_cluster(h, th, a, b));
        if b - a >= 15 {
            lemma_peak_in_range(h, a, b + 1);
            lemma_peak_max(h, a, b + 1);
            lemma_peak_first(h, a, b + 1);
            let p = peak(h, a, b + 1).0;
            assert(h[a] >= 1);
            assert(is_peak(h, a, b, p));
        }
    }
}

} // verus!
