//! Turning a site's crawled Markdown documents into a search index: the
//! front matter is cut off, titles and links default, and every document is
//! indexed in turn.
use vstd::prelude::*;
use crate::index::{total_tokens, DocView, SearchIndex};
use crate::paths::{site_and_page, site_and_page_exec};
use crate::records::{json_str_field, opt_view, str_field};
use crate::text::{
    chars_of, ends_with, ends_with_exec, find, find_exec, lemma_find_from, lit, matches_at, starts_with,
    starts_with_exec, string_of,
};

verus! {

/// A Markdown document without the front matter that opens it: a block
/// between `---` and the next line that opens with `---`, or a fenced
/// ```` ```yaml ```` (or ```` ```ymal ````) block up to the next line that opens
/// with ```` ``` ````. A block left open is kept.
pub open spec fn strip_front_matter(t: Seq<char>) -> Seq<char> {
    if starts_with(t, "---"@) {
        match find(t.skip(3), "\n---"@) {
            Some(e) => t.skip((3 + e + 4) as int),
            None => t,
        }
    } else if starts_with(t, "```yaml"@) || starts_with(t, "```ymal"@) {
        match find(t.skip(7), "\n```"@) {
            Some(e) => t.skip((7 + e + 4) as int),
            None => t,
        }
    } else {
        t
    }
}

fn cut_block(t: &Vec<char>, open_len: usize, close: &str) -> (r: Vec<char>)
    requires
        open_len <= t.len(),
    ensures
        r@ == (match find(t@.skip(open_len as int), close@) {
            Some(e) => t@.skip((open_len + e + close@.len()) as int),
            None => t@,
        }),
{
    let rest = crate::text::skip_exec(t, open_len);
    let c = chars_of(close);
    match find_exec(&rest, &c) {
        Some(e) => {
            proof {
                lemma_find_from(rest@, c@, 0);
            }
            let clen = c.len();
            let rlen = rest.len();
            assert(e + clen <= rlen);
            let skip = open_len + e + clen;
            let r = crate::text::skip_exec(t, skip);
            assert(r@ =~= t@.skip((open_len + e + close@.len()) as int));
            r
        },
        None => {
            assert(t@.skip(0) =~= t@);
            crate::text::skip_exec(t, 0)
        },
    }
}

pub fn strip_front_matter_exec(text: &str) -> (r: String)
    ensures
        r@ == strip_front_matter(text@),
{
    let t = chars_of(text);
    proof {
        reveal_strlit("---");
        reveal_strlit("\n---");
        reveal_strlit("```yaml");
        reveal_strlit("```ymal");
        reveal_strlit("\n```");
    }
    if starts_with_exec(&t, &chars_of("---")) {
        let r = cut_block(&t, 3, "\n---");
        return string_of(&r);
    }
    if starts_with_exec(&t, &chars_of("```yaml")) || starts_with_exec(&t, &chars_of("```ymal")) {
        let r = cut_block(&t, 7, "\n```");
        return string_of(&r);
    }
    lit(text)
}

/// A document of a site as read from disk for indexing.
pub struct LoadedDoc {
    /// Its key in the site index (`site/page`); a hit on it is named
    /// `docs/page.md`, its place relative to the site's root.
    pub name: String,
    /// The `title` of its index entry, when it has one.
    pub title: Option<String>,
    /// The `source_url` of its index entry, when it has one.
    pub source_url: Option<String>,
    /// Where its processed file lies.
    pub path: String,
    /// The file's text, when it is Markdown and could be read.
    pub body: Option<String>,
}

impl LoadedDoc {
    /// A document keyed `name`, with the `title` and `source_url` strings of
    /// its index entry's JSON value `meta`, where it has them.
    pub fn from_meta(name: String, meta: &str, path: String, body: Option<String>) -> (r: LoadedDoc)
        ensures
            r.name == name,
            opt_view(r.title) == json_str_field(meta@, "title"@),
            opt_view(r.source_url) == json_str_field(meta@, "source_url"@),
            r.path == path,
            r.body == body,
    {
        let title = str_field(meta, "title");
        let source_url = str_field(meta, "source_url");
        LoadedDoc { name, title, source_url, path, body }
    }
}

/// Only Markdown files are indexed.
pub open spec fn is_markdown(path: Seq<char>) -> bool {
    ends_with(path, ".md"@)
}

pub fn is_markdown_path(path: &str) -> (r: bool)
    ensures
        r == is_markdown(path@),
{
    let p = chars_of(path);
    ends_with_exec(&p, &chars_of(".md"))
}

pub open spec fn opt_text(o: Option<String>, default: Seq<char>) -> Seq<char> {
    match o {
        Some(s) => s@,
        None => default,
    }
}

/// Where a document keyed `site/page` lies relative to its site's root
/// directory: `docs/page.md`.
pub open spec fn site_relative_path(name: Seq<char>) -> Seq<char> {
    "docs/"@ + site_and_page(name).1 + ".md"@
}

pub fn site_relative_path_exec(name: &str) -> (r: String)
    ensures
        r@ == site_relative_path(name@),
{
    let (_, page) = site_and_page_exec(name);
    let mut r = lit("docs/");
    r.append(page.as_str());
    r.append(".md");
    r
}

/// The indexed form of a loaded document: named by its path relative to the
/// site's root, its front matter cut off, its title defaulting to its key and
/// its link to nothing.
pub open spec fn indexed_doc(d: LoadedDoc) -> DocView {
    DocView {
        filename: site_relative_path(d.name@),
        title: opt_text(d.title, d.name@),
        content: strip_front_matter(opt_text(d.body, Seq::empty())),
        url: opt_text(d.source_url, Seq::empty()),
        local_path: d.path@,
    }
}

/// The documents that go into the index, in order: the Markdown ones that were read.
pub open spec fn indexed_docs(ds: Seq<LoadedDoc>) -> Seq<DocView>
    decreases ds.len(),
{
    if ds.len() == 0 {
        Seq::empty()
    } else if is_markdown(ds.last().path@) && ds.last().body is Some {
        indexed_docs(ds.drop_last()).push(indexed_doc(ds.last()))
    } else {
        indexed_docs(ds.drop_last())
    }
}

fn opt_or(o: &Option<String>, default: &str) -> (r: String)
    ensures
        r@ == opt_text(*o, default@),
{
    match o {
        Some(s) => s.clone(),
        None => lit(default),
    }
}

/// The search index of a site's documents: each Markdown document that was
/// read is added in order, then the index is built.
pub fn index_documents(docs: &Vec<LoadedDoc>) -> (r: SearchIndex)
    ensures
        r.wf(),
        r@.docs == indexed_docs(docs@),
        r@.built_total == total_tokens(r@.docs),
        r@.built_count == r@.docs.len(),
{
    let mut index = SearchIndex::new();
    let mut i: usize = 0;
    while i < docs.len()
        invariant
            i <= docs.len(),
            index.wf(),
            index@.docs == indexed_docs(docs@.take(i as int)),
        decreases docs.len() - i,
    {
        assert(docs@.take(i + 1).drop_last() =~= docs@.take(i as int));
        let d = &docs[i];
        if is_markdown_path(d.path.as_str()) {
            match &d.body {
                Some(body) => {
                    let content = strip_front_matter_exec(body.as_str());
                    let title = match &d.title {
                        Some(t) => t.clone(),
                        None => d.name.clone(),
                    };
                    let url = opt_or(&d.source_url, "");
                    proof {
                        reveal_strlit("");
                    }
                    let filename = site_relative_path_exec(d.name.as_str());
                    let ghost dv = DocView {
                        filename: filename@,
                        title: title@,
                        content: content@,
                        url: url@,
                        local_path: d.path@,
                    };
                    let ghost before = index@.docs;
                    assert(docs@.take(i + 1).last() == *d);
                    assert(title@ == opt_text(d.title, d.name@));
                    assert(url@ == opt_text(d.source_url, Seq::empty()));
                    assert(dv == indexed_doc(*d));
                    index.add_document(filename, title, content, url, d.path.clone());
                    assert(index@.docs == before.push(dv));
                    assert(index@.docs =~= indexed_docs(docs@.take(i + 1)));
                },
                None => {},
            }
        }
        i = i + 1;
    }
    assert(docs@.take(docs.len() as int) =~= docs@);
    index.build();
    index
}

/// The key a site's index is cached under.
pub fn cache_key(output_dir: &str, site_name: &str) -> (r: String)
    ensures
        r@ == output_dir@ + ":"@ + site_name@,
{
    let mut k = lit(output_dir);
    k.append(":");
    k.append(site_name);
    k
}


/// Cutting the front matter only ever removes a beginning of the text, and a
/// text that opens with no front matter marker is kept whole.
pub proof fn lemma_front_matter_suffix(t: Seq<char>)
    ensures
        strip_front_matter(t).len() <= t.len(),
        strip_front_matter(t) == t.skip(t.len() - strip_front_matter(t).len()),
        !starts_with(t, "---"@) && !starts_with(t, "```yaml"@) && !starts_with(t, "```ymal"@)
            ==> strip_front_matter(t) == t,
{
    let r = strip_front_matter(t);
    reveal_strlit("---");
    reveal_strlit("\n---");
    reveal_strlit("```yaml");
    reveal_strlit("```ymal");
    reveal_strlit("\n```");
    if starts_with(t, "---"@) {
        match find(t.skip(3), "\n---"@) {
            Some(e) => {
                lemma_find_from(t.skip(3), "\n---"@, 0);
                assert(r =~= t.skip(t.len() - r.len()));
            },
            None => {
                assert(t.skip(0) =~= t);
            },
        }
    } else if starts_with(t, "```yaml"@) || starts_with(t, "```ymal"@) {
        match find(t.skip(7), "\n```"@) {
            Some(e) => {
                lemma_find_from(t.skip(7), "\n```"@, 0);
                assert(r =~= t.skip(t.len() - r.len()));
            },
            None => {
                assert(t.skip(0) =~= t);
            },
        }
    } else {
        assert(t.skip(0) =~= t);
    }
}


proof fn lemma_matches_skip(t: Seq<char>, p: Seq<char>, k: int, e: int)
    requires
        0 <= k <= t.len(),
        0 <= e,
    ensures
        matches_at(t.skip(k), p, e) <==> matches_at(t, p, k + e),
{
    if e + p.len() <= t.len() - k {
        assert(t.skip(k).subrange(e, e + p.len()) =~= t.subrange(k + e, k + e + p.len()));
    }
}

/// What `find` on `t.skip(k)` comes to, in positions of `t`: the closing
/// marker found is the first one at or after `k`.
proof fn lemma_find_after(t: Seq<char>, p: Seq<char>, k: int)
    requires
        0 <= k <= t.len(),
    ensures
        match find(t.skip(k), p) {
            Some(e) => matches_at(t, p, k + e) && forall|j: int|
                k <= j < k + e ==> !matches_at(t, p, j),
            None => forall|j: int| k <= j ==> !matches_at(t, p, j),
        },
{
    lemma_find_from(t.skip(k), p, 0);
    match find(t.skip(k), p) {
        Some(e) => {
            lemma_matches_skip(t, p, k, e as int);
            assert forall|j: int| k <= j < k + e implies !matches_at(t, p, j) by {
                lemma_matches_skip(t, p, k, j - k);
            }
        },
        None => {
            assert forall|j: int| k <= j implies !matches_at(t, p, j) by {
                lemma_matches_skip(t, p, k, j - k);
            }
        },
    }
}

/// A `---` front matter block ends at the first `\n---` after the opening
/// `---`: the text kept starts right after that occurrence, so no closing
/// marker lies inside what is cut away. With no closing marker the text is
/// kept whole.
pub proof fn lemma_front_matter_dashes(t: Seq<char>)
    requires
        starts_with(t, "---"@),
    ensures
        forall|c: int|
            3 <= c && matches_at(t, "\n---"@, c) && (forall|j: int|
                3 <= j < c ==> !matches_at(t, "\n---"@, j)) ==> strip_front_matter(t) == t.skip(
                c + 4,
            ),
        (forall|j: int| 3 <= j ==> !matches_at(t, "\n---"@, j)) ==> strip_front_matter(t) == t,
{
    reveal_strlit("---");
    reveal_strlit("\n---");
    assert(t.len() >= 3);
    lemma_find_after(t, "\n---"@, 3);
    assert forall|c: int|
        3 <= c && matches_at(t, "\n---"@, c) && (forall|j: int|
            3 <= j < c ==> !matches_at(t, "\n---"@, j)) implies strip_front_matter(t) == t.skip(
        c + 4,
    ) by {
        match find(t.skip(3), "\n---"@) {
            Some(e) => {
                assert(!(c < 3 + e));
                assert(!(3 + e < c));
            },
            None => {
                assert(!matches_at(t, "\n---"@, c));
            },
        }
    }
}

/// A fenced ```` ```yaml ```` (or ```` ```ymal ````) front matter block ends
/// at the first ```` \n``` ```` after the opening fence: the text kept starts
/// right after that occurrence, so no closing fence lies inside what is cut
/// away. With no closing fence the text is kept whole.
pub proof fn lemma_front_matter_fence(t: Seq<char>)
    requires
        starts_with(t, "```yaml"@) || starts_with(t, "```ymal"@),
    ensures
        forall|c: int|
            7 <= c && matches_at(t, "\n```"@, c) && (forall|j: int|
                7 <= j < c ==> !matches_at(t, "\n```"@, j)) ==> strip_front_matter(t) == t.skip(
                c + 4,
            ),
        (forall|j: int| 7 <= j ==> !matches_at(t, "\n```"@, j)) ==> strip_front_matter(t) == t,
{
    reveal_strlit("---");
    reveal_strlit("```yaml");
    reveal_strlit("```ymal");
    reveal_strlit("\n```");
    assert(t.len() >= 7);
    assert(t.subrange(0, 7)[0] == t[0]);
    assert(t[0] == '`');
    assert(!starts_with(t, "---"@)) by {
        if starts_with(t, "---"@) {
            assert(t.subrange(0, 3)[0] == t[0]);
        }
    }
    lemma_find_after(t, "\n```"@, 7);
    assert forall|c: int|
        7 <= c && matches_at(t, "\n```"@, c) && (forall|j: int|
            7 <= j < c ==> !matches_at(t, "\n```"@, j)) implies strip_front_matter(t) == t.skip(
        c + 4,
    ) by {
        match find(t.skip(7), "\n```"@) {
            Some(e) => {
                assert(!(c < 7 + e));
                assert(!(7 + e < c));
            },
            None => {
                assert(!matches_at(t, "\n```"@, c));
            },
        }
    }
}

} // verus!
