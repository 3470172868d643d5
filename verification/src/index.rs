//! The in-memory full-text index: documents with their term counts, and the
//! number of documents each term occurs in.
use vstd::prelude::*;
use crate::text::views;
use crate::tokenize::{spec_tokenize, tokenize};
use crate::extract::{
    dense_block, dense_block_defined, extract_dense_block, extract_snippet, is_dense_block_defined,
    is_snippet_defined,
    snippet, snippet_defined,
};
use crate::result::SearchResult;

verus! {

/// How often `t` occurs in `tokens`.
pub open spec fn occurrences(tokens: Seq<Seq<char>>, t: Seq<char>) -> nat
    decreases tokens.len(),
{
    if tokens.len() == 0 {
        0
    } else {
        occurrences(tokens.drop_last(), t) + if tokens.last() == t {
            1nat
        } else {
            0nat
        }
    }
}

/// How often `t` occurs among the tokens of `content`.
pub open spec fn term_freq_of(content: Seq<char>, t: Seq<char>) -> nat {
    occurrences(spec_tokenize(content), t)
}

/// One indexed document, as the index sees it.
pub struct DocView {
    pub filename: Seq<char>,
    pub title: Seq<char>,
    pub content: Seq<char>,
    pub url: Seq<char>,
    pub local_path: Seq<char>,
}

/// How many of the query tokens `toks` (with repetition) occur in `content`
/// and in some document of `docs`.
pub open spec fn matched_tokens(content: Seq<char>, docs: Seq<DocView>, toks: Seq<Seq<char>>) -> nat
    decreases toks.len(),
{
    if toks.len() == 0 {
        0
    } else {
        matched_tokens(content, docs, toks.drop_last()) + if term_freq_of(content, toks.last()) > 0
            && doc_freq_of(docs, toks.last()) > 0 {
            1nat
        } else {
            0nat
        }
    }
}

/// How many of `docs` contain the term `t`.
pub open spec fn doc_freq_of(docs: Seq<DocView>, t: Seq<char>) -> nat
    decreases docs.len(),
{
    if docs.len() == 0 {
        0
    } else {
        doc_freq_of(docs.drop_last(), t) + if term_freq_of(docs.last().content, t) > 0 {
            1nat
        } else {
            0nat
        }
    }
}

/// The total number of tokens of `docs`.
pub open spec fn total_tokens(docs: Seq<DocView>) -> nat
    decreases docs.len(),
{
    if docs.len() == 0 {
        0
    } else {
        total_tokens(docs.drop_last()) + spec_tokenize(docs.last().content).len()
    }
}

/// The index: its documents in insertion order, and the token total and
/// document count taken at the last `build` (from which the average document
/// length is derived).
pub struct IndexView {
    pub docs: Seq<DocView>,
    pub built_total: nat,
    pub built_count: nat,
}

/// A counter keyed by term: the count stored for `t`, 0 when it has none.
pub open spec fn lookup(v: Seq<(String, usize)>, t: Seq<char>) -> nat
    decreases v.len(),
{
    if v.len() == 0 {
        0
    } else if v.last().0@ == t {
        v.last().1 as nat
    } else {
        lookup(v.drop_last(), t)
    }
}

/// No term is stored twice, and every stored count is positive.
pub open spec fn counter_wf(v: Seq<(String, usize)>) -> bool {
    &&& forall|i: int, j: int| 0 <= i < j < v.len() ==> v[i].0@ != v[j].0@
    &&& forall|i: int| 0 <= i < v.len() ==> v[i].1 >= 1
}

proof fn lemma_lookup_at(v: Seq<(String, usize)>, p: int)
    requires
        counter_wf(v),
        0 <= p < v.len(),
    ensures
        lookup(v, v[p].0@) == v[p].1,
    decreases v.len(),
{
    if p < v.len() - 1 {
        assert(v.drop_last()[p] == v[p]);
        lemma_lookup_at(v.drop_last(), p);
    }
}

proof fn lemma_lookup_absent(v: Seq<(String, usize)>, t: Seq<char>)
    requires
        forall|i: int| 0 <= i < v.len() ==> v[i].0@ != t,
    ensures
        lookup(v, t) == 0,
    decreases v.len(),
{
    if v.len() > 0 {
        assert forall|i: int| 0 <= i < v.drop_last().len() implies v.drop_last()[i].0@ != t by {
            assert(v.drop_last()[i] == v[i]);
        }
        lemma_lookup_absent(v.drop_last(), t);
    }
}

proof fn lemma_lookup_positive(v: Seq<(String, usize)>, t: Seq<char>)
    requires
        counter_wf(v),
    ensures
        lookup(v, t) > 0 <==> exists|i: int| 0 <= i < v.len() && v[i].0@ == t,
{
    if exists|i: int| 0 <= i < v.len() && v[i].0@ == t {
        let i = choose|i: int| 0 <= i < v.len() && v[i].0@ == t;
        lemma_lookup_at(v, i);
    } else {
        lemma_lookup_absent(v, t);
    }
}

proof fn lemma_lookup_update(v: Seq<(String, usize)>, p: int, n: usize, t: Seq<char>)
    requires
        counter_wf(v),
        0 <= p < v.len(),
    ensures
        lookup(v.update(p, (v[p].0, n)), t) == if t == v[p].0@ {
            n as nat
        } else {
            lookup(v, t)
        },
    decreases v.len(),
{
    let w = v.update(p, (v[p].0, n));
    if p == v.len() - 1 {
        assert(w.drop_last() =~= v.drop_last());
        if t == v[p].0@ {
        } else {
        }
    } else {
        assert(w.drop_last() =~= v.drop_last().update(p, (v[p].0, n)));
        assert(v.drop_last()[p] == v[p]);
        lemma_lookup_update(v.drop_last(), p, n, t);
        if t == v[p].0@ {
            assert(w.last() == v.last());
        }
    }
}

proof fn lemma_lookup_push(v: Seq<(String, usize)>, k: String, t: Seq<char>)
    ensures
        lookup(v.push((k, 1)), t) == if t == k@ {
            1nat
        } else {
            lookup(v, t)
        },
{
    assert(v.push((k, 1)).drop_last() =~= v);
}

/// One of the first `j` entries of `v` is stored under `t`.
pub open spec fn key_among(v: Seq<(String, usize)>, j: int, t: Seq<char>) -> bool {
    exists|q: int| 0 <= q < j && (#[trigger] v[q]).0@ == t
}

/// Adds one to the count of `key`.
fn bump(v: &mut Vec<(String, usize)>, key: &String)
    requires
        counter_wf(old(v)@),
        lookup(old(v)@, key@) < usize::MAX,
    ensures
        counter_wf(final(v)@),
        forall|t: Seq<char>|
            #![trigger lookup(final(v)@, t)]
            lookup(final(v)@, t) == lookup(old(v)@, t) + if t == key@ {
                1nat
            } else {
                0nat
            },
{
    let mut i: usize = 0;
    while i < v.len()
        invariant
            i <= v.len(),
            v@ == old(v)@,
            counter_wf(v@),
            lookup(v@, key@) < usize::MAX,
            forall|j: int| 0 <= j < i ==> v@[j].0@ != key@,
        decreases v.len() - i,
    {
        if v[i].0 == *key {
            proof {
                lemma_lookup_at(v@, i as int);
            }
            let ghost old_v = v@;
            let c = v[i].1;
            let k = v[i].0.clone();
            v.set(i, (k, c + 1));
            proof {
                assert forall|t: Seq<char>| #![trigger lookup(v@, t)]
                    lookup(v@, t) == lookup(old_v, t) + if t == key@ {
                        1nat
                    } else {
                        0nat
                    } by {
                    lemma_lookup_update(old_v, i as int, (c + 1) as usize, t);
                    assert(v@ == old_v.update(i as int, (old_v[i as int].0, (c + 1) as usize)));
                }
                assert forall|a: int, b: int| 0 <= a < b < v@.len() implies v@[a].0@
                    != v@[b].0@ by {
                    assert(old_v[a].0@ != old_v[b].0@);
                }
            }
            return;
        }
        i = i + 1;
    }
    let ghost old_v = v@;
    proof {
        lemma_lookup_absent(old_v, key@);
    }
    let k = key.clone();
    let ghost kg = k;
    v.push((k, 1));
    proof {
        assert forall|t: Seq<char>| #![trigger lookup(v@, t)]
            lookup(v@, t) == lookup(old_v, t) + if t == key@ {
                1nat
            } else {
                0nat
            } by {
            lemma_lookup_push(old_v, kg, t);
            assert(v@ == old_v.push((kg, 1usize)));
        }
    }
}

proof fn lemma_occurrences_bound(tokens: Seq<Seq<char>>, t: Seq<char>)
    ensures
        occurrences(tokens, t) <= tokens.len(),
    decreases tokens.len(),
{
    if tokens.len() > 0 {
        lemma_occurrences_bound(tokens.drop_last(), t);
    }
}

proof fn lemma_doc_freq_bound(docs: Seq<DocView>, t: Seq<char>)
    ensures
        doc_freq_of(docs, t) <= docs.len(),
    decreases docs.len(),
{
    if docs.len() > 0 {
        lemma_doc_freq_bound(docs.drop_last(), t);
    }
}


/// `r` is the hit for document `d` under the query tokens `toks`: the stored
/// fields, the snippet and the dense block, and no links yet.
pub open spec fn result_matches(r: SearchResult, d: DocView, toks: Seq<Seq<char>>) -> bool {
    &&& r.filename@ == d.filename
    &&& r.title@ == d.title
    &&& r.snippet@ == snippet(d.content, toks)
    &&& r.url@ == d.url
    &&& r.start_line == dense_block(d.content, toks).0
    &&& r.end_line == dense_block(d.content, toks).1
    &&& r.matched_block@ == dense_block(d.content, toks).2
    &&& r.local_path@ == d.local_path
    &&& r.md_download_url is None
    &&& r.html_view_url is None
    &&& r.html_block_view_url is None
}

/// The number of hits returned for a ranking: at most `top_k`.
pub open spec fn hit_count_for(top_k: nat, ranked_len: nat) -> nat {
    if top_k < ranked_len {
        top_k
    } else {
        ranked_len
    }
}

/// Every ranked document that is turned into a hit exists, and its snippet and
/// dense block can be cut.
pub open spec fn search_defined(
    docs: Seq<DocView>,
    toks: Seq<Seq<char>>,
    top_k: nat,
    ranked: Seq<usize>,
) -> bool {
    toks.len() > 0 && docs.len() > 0 ==> forall|i: int|
        0 <= i < hit_count_for(top_k, ranked.len()) ==> {
            &&& #[trigger] ranked[i] < docs.len()
            &&& snippet_defined(docs[ranked[i] as int].content, toks)
            &&& dense_block_defined(docs[ranked[i] as int].content, toks)
        }
}

/// The hits for a query, given the order in which documents rank: none when
/// the query has no tokens or the index no documents; otherwise the first
/// `top_k` ranked documents, each with its snippet and dense block.
pub open spec fn search_results_match(
    r: Seq<SearchResult>,
    docs: Seq<DocView>,
    toks: Seq<Seq<char>>,
    top_k: nat,
    ranked: Seq<usize>,
) -> bool {
    if toks.len() == 0 || docs.len() == 0 {
        r.len() == 0
    } else {
        &&& r.len() == hit_count_for(top_k, ranked.len())
        &&& forall|i: int|
            0 <= i < r.len() ==> result_matches(#[trigger] r[i], docs[ranked[i] as int], toks)
    }
}

struct Document {
    filename: String,
    title: String,
    content: String,
    tf: Vec<(String, usize)>,
    doc_len: usize,
    url: String,
    local_path: String,
}

impl Document {
    spec fn view_doc(&self) -> DocView {
        DocView {
            filename: self.filename@,
            title: self.title@,
            content: self.content@,
            url: self.url@,
            local_path: self.local_path@,
        }
    }

    spec fn wf(&self) -> bool {
        &&& counter_wf(self.tf@)
        &&& forall|t: Seq<char>| #[trigger]
            lookup(self.tf@, t) == term_freq_of(self.content@, t)
        &&& self.doc_len == spec_tokenize(self.content@).len()
    }
}

/// A full-text index over documents.
pub struct SearchIndex {
    docs: Vec<Document>,
    df: Vec<(String, usize)>,
    built_total: u128,
    built_count: usize,
}

impl View for SearchIndex {
    type V = IndexView;

    closed spec fn view(&self) -> IndexView {
        IndexView {
            docs: self.docs@.map_values(|d: Document| d.view_doc()),
            built_total: self.built_total as nat,
            built_count: self.built_count as nat,
        }
    }
}

impl SearchIndex {
    /// The index's internal counts agree with its documents.
    pub closed spec fn wf(&self) -> bool {
        &&& forall|i: int| 0 <= i < self.docs@.len() ==> (#[trigger] self.docs@[i]).wf()
        &&& counter_wf(self.df@)
        &&& forall|t: Seq<char>| #[trigger] lookup(self.df@, t) == doc_freq_of(self@.docs, t)
    }

    pub fn new() -> (r: Self)
        ensures
            r.wf(),
            r@.docs == Seq::<DocView>::empty(),
            r@.built_total == 0,
            r@.built_count == 0,
    {
        let r = SearchIndex { docs: Vec::new(), df: Vec::new(), built_total: 0, built_count: 0 };
        assert(r@.docs =~= Seq::<DocView>::empty());
        r
    }

    /// Adds a document; its text is tokenized and counted.
    pub fn add_document(
        &mut self,
        filename: String,
        title: String,
        content: String,
        url: String,
        local_path: String,
    )
        requires
            old(self).wf(),
        ensures
            final(self).wf(),
            final(self)@.docs == old(self)@.docs.push(
                DocView {
                    filename: filename@,
                    title: title@,
                    content: content@,
                    url: url@,
                    local_path: local_path@,
                },
            ),
            final(self)@.built_total == old(self)@.built_total,
            final(self)@.built_count == old(self)@.built_count,
    {
        let tokens = tokenize(content.as_str());
        let ghost toks = views(tokens@);
        let doc_len = tokens.len();
        let mut tf: Vec<(String, usize)> = Vec::new();
        let mut i: usize = 0;
        while i < tokens.len()
            invariant
                i <= tokens.len(),
                toks == views(tokens@),
                counter_wf(tf@),
                forall|t: Seq<char>| #[trigger]
                    lookup(tf@, t) == occurrences(toks.take(i as int), t),
            decreases tokens.len() - i,
        {
            proof {
                lemma_occurrences_bound(toks.take(i as int), tokens@[i as int]@);
            }
            bump(&mut tf, &tokens[i]);
            proof {
                assert(toks.take(i + 1).drop_last() =~= toks.take(i as int));
                assert(toks[i as int] == tokens@[i as int]@);
                assert forall|t: Seq<char>| #[trigger]
                    lookup(tf@, t) == occurrences(toks.take(i + 1), t) by {
                    assert(lookup(tf@, t) == occurrences(toks.take(i as int), t) + if t
                        == tokens@[i as int]@ {
                        1nat
                    } else {
                        0nat
                    });
                }
            }
            i = i + 1;
        }
        assert(toks.take(tokens.len() as int) =~= toks);
        let ghost old_docs = self@.docs;
        let doc = Document { filename, title, content, tf, doc_len, url, local_path };
        assert(doc.wf());
        let ghost dv = doc.view_doc();
        self.docs.push(doc);
        let n = self.docs.len();
        assert(self@.docs =~= old_docs.push(dv));
        assert(self@.docs.drop_last() =~= old_docs);
        let ghost df0 = self.df@;
        let mut j: usize = 0;
        while j < self.docs[n - 1].tf.len()
            invariant
                n == self.docs@.len(),
                n >= 1,
                self.built_total == old(self).built_total,
                self.built_count == old(self).built_count,
                self@.docs == old_docs.push(dv),
                forall|i: int| 0 <= i < n ==> (#[trigger] self.docs@[i]).wf(),
                self.docs@[n - 1].view_doc() == dv,
                j <= self.docs@[n - 1].tf@.len(),
                counter_wf(self.df@),
                forall|t: Seq<char>| #[trigger]
                    lookup(self.df@, t) == doc_freq_of(old_docs, t) + if key_among(
                        self.docs@[n - 1].tf@,
                        j as int,
                        t,
                    ) {
                        1nat
                    } else {
                        0nat
                    },
            decreases self.docs@[n - 1].tf@.len() - j,
        {
            let ghost tfv = self.docs@[n - 1].tf@;
            let key = self.docs[n - 1].tf[j].0.clone();
            proof {
                lemma_doc_freq_bound(old_docs, key@);
                assert forall|q: int| 0 <= q < j implies tfv[q].0@ != key@ by {
                    assert(tfv[q].0@ != tfv[j as int].0@);
                }
                assert(lookup(self.df@, key@) == doc_freq_of(old_docs, key@));
                assert(self@.docs.len() == n);
                assert(old_docs.len() == n - 1);
            }
            bump(&mut self.df, &key);
            proof {
                assert forall|t: Seq<char>| #[trigger]
                    lookup(self.df@, t) == doc_freq_of(old_docs, t) + if key_among(
                        tfv,
                        j + 1,
                        t,
                    ) {
                        1nat
                    } else {
                        0nat
                    } by {
                    if t == key@ {
                        assert(tfv[j as int].0@ == t);
                    } else if key_among(tfv, j + 1, t) {
                        let q = choose|q: int| 0 <= q < j + 1 && (#[trigger] tfv[q]).0@ == t;
                        assert(q < j);
                        assert(key_among(tfv, j as int, t));
                    } else {
                        assert(!key_among(tfv, j as int, t));
                    }
                }
            }
            j = j + 1;
        }
        proof {
            let tfv = self.docs@[n - 1].tf@;
            assert forall|t: Seq<char>| #[trigger] lookup(self.df@, t) == doc_freq_of(self@.docs, t) by {
                lemma_lookup_positive(tfv, t);
                assert(key_among(tfv, tfv.len() as int, t) <==> exists|i: int|
                    0 <= i < tfv.len() && tfv[i].0@ == t);
                assert(self@.docs.last() == dv);
            }
        }
    }

    /// Takes the token total and document count from which the average
    /// document length is derived.
    pub fn build(&mut self)
        requires
            old(self).wf(),
        ensures
            final(self).wf(),
            final(self)@.docs == old(self)@.docs,
            final(self)@.built_total == total_tokens(old(self)@.docs),
            final(self)@.built_count == old(self)@.docs.len(),
    {
        let ghost docs = self@.docs;
        let mut total: u128 = 0;
        let mut i: usize = 0;
        while i < self.docs.len()
            invariant
                i <= self.docs.len(),
                docs == self@.docs,
                forall|k: int| 0 <= k < self.docs@.len() ==> (#[trigger] self.docs@[k]).wf(),
                total == total_tokens(docs.take(i as int)),
                total <= i * (usize::MAX as int),
            decreases self.docs.len() - i,
        {
            assert(docs.take(i + 1).drop_last() =~= docs.take(i as int));
            assert(docs[i as int] == self.docs@[i as int].view_doc());
            let len = self.docs[i].doc_len as u128;
            assert(total + len <= (i + 1) * (usize::MAX as int)) by (nonlinear_arith)
                requires
                    total <= i * (usize::MAX as int),
                    len <= usize::MAX,
            ;
            assert((i + 1) * (usize::MAX as int) < u128::MAX) by (nonlinear_arith)
                requires
                    i < usize::MAX,
            ;
            total = total + len;
            i = i + 1;
        }
        assert(docs.take(self.docs.len() as int) =~= docs);
        self.built_total = total;
        self.built_count = self.docs.len();
    }

    pub fn num_docs(&self) -> (n: usize)
        ensures
            n == self@.docs.len(),
    {
        self.docs.len()
    }

    /// The token total and document count taken at the last `build`.
    pub fn built_stats(&self) -> (r: (u128, usize))
        ensures
            r.0 == self@.built_total,
            r.1 == self@.built_count,
    {
        (self.built_total, self.built_count)
    }

    /// The number of tokens of document `doc`.
    pub fn doc_len(&self, doc: usize) -> (n: usize)
        requires
            self.wf(),
            doc < self@.docs.len(),
        ensures
            n == spec_tokenize(self@.docs[doc as int].content).len(),
    {
        assert(self.docs@[doc as int].wf());
        self.docs[doc].doc_len
    }

    /// How often `term` occurs among the tokens of document `doc`.
    pub fn term_freq(&self, doc: usize, term: &String) -> (n: usize)
        requires
            self.wf(),
            doc < self@.docs.len(),
        ensures
            n == term_freq_of(self@.docs[doc as int].content, term@),
    {
        assert(self.docs@[doc as int].wf());
        counter_get(&self.docs[doc].tf, term)
    }

    /// How many documents contain `term`.
    pub fn doc_freq(&self, term: &String) -> (n: usize)
        requires
            self.wf(),
        ensures
            n == doc_freq_of(self@.docs, term@),
    {
        counter_get(&self.df, term)
    }

    /// What relevance scoring reads for document `doc`: for each query token
    /// its count in the document and the number of documents containing it,
    /// and how many query tokens (counted with repetition) occur in the
    /// document.
    pub fn token_stats(&self, doc: usize, tokens: &Vec<String>) -> (r: (Vec<(usize, usize)>, usize))
        requires
            self.wf(),
            doc < self@.docs.len(),
        ensures
            r.0@.len() == tokens@.len(),
            forall|i: int|
                0 <= i < tokens@.len() ==> (#[trigger] r.0@[i]).0 == term_freq_of(
                    self@.docs[doc as int].content,
                    tokens@[i]@,
                ) && r.0@[i].1 == doc_freq_of(self@.docs, tokens@[i]@),
            r.1 == matched_tokens(self@.docs[doc as int].content, self@.docs, views(tokens@)),
    {
        let mut stats: Vec<(usize, usize)> = Vec::new();
        let mut matched: usize = 0;
        let ghost content = self@.docs[doc as int].content;
        let mut i: usize = 0;
        while i < tokens.len()
            invariant
                i <= tokens.len(),
                self.wf(),
                doc < self@.docs.len(),
                content == self@.docs[doc as int].content,
                stats@.len() == i,
                forall|j: int|
                    0 <= j < i ==> (#[trigger] stats@[j]).0 == term_freq_of(content, tokens@[j]@)
                        && stats@[j].1 == doc_freq_of(self@.docs, tokens@[j]@),
                matched == matched_tokens(content, self@.docs, views(tokens@).take(i as int)),
                matched <= i,
            decreases tokens.len() - i,
        {
            let tf = self.term_freq(doc, &tokens[i]);
            let df = self.doc_freq(&tokens[i]);
            assert(views(tokens@).take(i + 1).drop_last() =~= views(tokens@).take(i as int));
            assert(views(tokens@).take(i + 1).last() == tokens@[i as int]@);
            if tf > 0 && df > 0 {
                matched = matched + 1;
            }
            stats.push((tf, df));
            i = i + 1;
        }
        assert(views(tokens@).take(tokens.len() as int) =~= views(tokens@));
        (stats, matched)
    }

    /// The hits for `query`, the documents taken in the order `ranked` gives
    /// (most relevant first), at most `top_k` of them.
    pub fn search(&self, query: &str, top_k: usize, ranked: &Vec<usize>) -> (r: Vec<SearchResult>)
        requires
            self.wf(),
            search_defined(self@.docs, spec_tokenize(query@), top_k as nat, ranked@),
        ensures
            search_results_match(r@, self@.docs, spec_tokenize(query@), top_k as nat, ranked@),
    {
        let query_tokens = tokenize(query);
        let ghost toks = spec_tokenize(query@);
        let mut out: Vec<SearchResult> = Vec::new();
        if query_tokens.len() == 0 || self.docs.len() == 0 {
            return out;
        }
        let n = if top_k < ranked.len() {
            top_k
        } else {
            ranked.len()
        };
        let mut i: usize = 0;
        while i < n
            invariant
                i <= n == hit_count_for(top_k as nat, ranked@.len()),
                views(query_tokens@) == toks,
                toks.len() > 0,
                self@.docs.len() > 0,
                search_defined(self@.docs, toks, top_k as nat, ranked@),
                out@.len() == i,
                forall|q: int|
                    0 <= q < i ==> result_matches(
                        #[trigger] out@[q],
                        self@.docs[ranked@[q] as int],
                        toks,
                    ),
            decreases n - i,
        {
            let id = ranked[i];
            assert(ranked@[i as int] < self@.docs.len());
            let (filename, title, content, url, local_path) = self.doc_fields(id);
            let snippet = extract_snippet(content.as_str(), &query_tokens);
            let (start_line, end_line, matched_block) = extract_dense_block(
                content.as_str(),
                &query_tokens,
            );
            out.push(
                SearchResult {
                    filename,
                    title,
                    snippet,
                    url,
                    start_line,
                    end_line,
                    matched_block,
                    local_path,
                    md_download_url: None,
                    html_view_url: None,
                    html_block_view_url: None,
                },
            );
            i = i + 1;
        }
        out
    }

    /// Like `search`, but `None` when a ranked document does not exist or its
    /// snippet or dense block cannot be cut.
    pub fn search_checked(&self, query: &str, top_k: usize, ranked: &Vec<usize>) -> (r: Option<
        Vec<SearchResult>,
    >)
        requires
            self.wf(),
        ensures
            r is Some <==> search_defined(self@.docs, spec_tokenize(query@), top_k as nat, ranked@),
            r matches Some(v) ==> search_results_match(
                v@,
                self@.docs,
                spec_tokenize(query@),
                top_k as nat,
                ranked@,
            ),
    {
        let query_tokens = tokenize(query);
        let ghost toks = spec_tokenize(query@);
        if query_tokens.len() > 0 && self.docs.len() > 0 {
            let n = if top_k < ranked.len() {
                top_k
            } else {
                ranked.len()
            };
            let mut i: usize = 0;
            while i < n
                invariant
                    i <= n == hit_count_for(top_k as nat, ranked@.len()),
                    views(query_tokens@) == toks,
                    toks == spec_tokenize(query@),
                    toks.len() > 0,
                    self@.docs.len() > 0,
                    forall|q: int|
                        0 <= q < i ==> {
                            &&& #[trigger] ranked@[q] < self@.docs.len()
                            &&& snippet_defined(self@.docs[ranked@[q] as int].content, toks)
                            &&& dense_block_defined(self@.docs[ranked@[q] as int].content, toks)
                        },
                decreases n - i,
            {
                let id = ranked[i];
                if id >= self.docs.len() {
                    return None;
                }
                let content = &self.docs[id].content;
                assert(content@ == self@.docs[id as int].content);
                if !is_snippet_defined(content.as_str(), &query_tokens) {
                    return None;
                }
                if !is_dense_block_defined(content.as_str(), &query_tokens) {
                    return None;
                }
                i = i + 1;
            }
        }
        Some(self.search(query, top_k, ranked))
    }

    /// The stored fields of document `doc`.
    pub fn doc_fields(&self, doc: usize) -> (r: (String, String, String, String, String))
        requires
            doc < self@.docs.len(),
        ensures
            r.0@ == self@.docs[doc as int].filename,
            r.1@ == self@.docs[doc as int].title,
            r.2@ == self@.docs[doc as int].content,
            r.3@ == self@.docs[doc as int].url,
            r.4@ == self@.docs[doc as int].local_path,
    {
        let d = &self.docs[doc];
        (d.filename.clone(), d.title.clone(), d.content.clone(), d.url.clone(), d.local_path.clone())
    }
}

fn counter_get(v: &Vec<(String, usize)>, key: &String) -> (n: usize)
    requires
        counter_wf(v@),
    ensures
        n == lookup(v@, key@),
{
    let mut i: usize = 0;
    while i < v.len()
        invariant
            i <= v.len(),
            counter_wf(v@),
            forall|j: int| 0 <= j < i ==> v@[j].0@ != key@,
        decreases v.len() - i,
    {
        if v[i].0 == *key {
            proof {
                lemma_lookup_at(v@, i as int);
            }
            return v[i].1;
        }
        i = i + 1;
    }
    proof {
        lemma_lookup_absent(v@, key@);
    }
    0
}


/// Adding a document counts it once for each term it contains and leaves the
/// counts of the other terms alone.
pub proof fn lemma_doc_freq_push(docs: Seq<DocView>, d: DocView, t: Seq<char>)
    ensures
        doc_freq_of(docs.push(d), t) == doc_freq_of(docs, t) + if term_freq_of(d.content, t) > 0 {
            1nat
        } else {
            0nat
        },
{
    assert(docs.push(d).drop_last() =~= docs);
}

/// A term occurs in at most as many documents as there are.
pub proof fn lemma_doc_freq_at_most_docs(docs: Seq<DocView>, t: Seq<char>)
    ensures
        doc_freq_of(docs, t) <= docs.len(),
{
    lemma_doc_freq_bound(docs, t);
}

/// A search returns at most `top_k` hits, and no more than were ranked.
pub proof fn lemma_hits_at_most_top_k(
    r: Seq<SearchResult>,
    docs: Seq<DocView>,
    toks: Seq<Seq<char>>,
    top_k: nat,
    ranked: Seq<usize>,
)
    requires
        search_results_match(r, docs, toks, top_k, ranked),
    ensures
        r.len() <= top_k,
        r.len() <= ranked.len(),
{
}


/// Two hits show the same document in the same way: every field agrees.
pub open spec fn same_hit(a: SearchResult, b: SearchResult) -> bool {
    &&& a.filename@ == b.filename@
    &&& a.title@ == b.title@
    &&& a.snippet@ == b.snippet@
    &&& a.url@ == b.url@
    &&& a.start_line == b.start_line
    &&& a.end_line == b.end_line
    &&& a.matched_block@ == b.matched_block@
    &&& a.local_path@ == b.local_path@
    &&& a.md_download_url is None && b.md_download_url is None
    &&& a.html_view_url is None && b.html_view_url is None
    &&& a.html_block_view_url is None && b.html_block_view_url is None
}

/// Searches over the same index and ranking whose queries have the same
/// tokens agree: with `top_k` at `k1 <= k2`, the first search gives the
/// first `min(k1, n)` hits of the second, `n` being the second's length. So
/// equal `top_k` give the same hits, and queries that differ only in case or
/// in punctuation around words give the same hits.
pub proof fn lemma_search_prefix(
    r1: Seq<SearchResult>,
    r2: Seq<SearchResult>,
    docs: Seq<DocView>,
    toks: Seq<Seq<char>>,
    k1: nat,
    k2: nat,
    ranked: Seq<usize>,
)
    requires
        search_results_match(r1, docs, toks, k1, ranked),
        search_results_match(r2, docs, toks, k2, ranked),
        k1 <= k2,
    ensures
        r1.len() == (if k1 < r2.len() {
            k1
        } else {
            r2.len()
        }),
        forall|i: int| 0 <= i < r1.len() ==> same_hit(#[trigger] r1[i], r2[i]),
{
    if toks.len() > 0 && docs.len() > 0 {
        assert forall|i: int| 0 <= i < r1.len() implies same_hit(#[trigger] r1[i], r2[i]) by {
            assert(result_matches(r1[i], docs[ranked[i] as int], toks));
            assert(result_matches(r2[i], docs[ranked[i] as int], toks));
        }
    }
}

} // verus!
