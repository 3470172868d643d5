//! The crawled sites under the output directory: which are listed and in
//! what order, and the names their documents are indexed under.
use vstd::prelude::*;
use crate::records::{index_json, json_value_text, opt_view, pair_views, parse_index_json, parse_json_value};
use crate::text::{chars_of, lit, rfind, rfind_exec, str_eq, string_of, views};

verus! {

/// What the caller found on disk for one directory under the output directory.
pub struct SiteProbe {
    pub name: String,
    /// Whether the directory holds an `index.json`.
    pub index_exists: bool,
    /// The number of entries of the `file_tree` of its `index.json`, when the
    /// file could be read and parsed and has such an object.
    pub index_entries: Option<usize>,
    /// The `last_updated` text of its `index.json`, when it has one.
    pub last_updated: Option<String>,
    /// The number of files in its `docs` directory, when that could be read.
    pub docs_files: Option<usize>,
    /// Whether the directory holds a `crawl_config.json`.
    pub has_config: bool,
}

/// A site as the site list shows it.
pub struct SiteSummary {
    pub name: String,
    pub file_count: u32,
    pub last_updated: String,
}

/// A site summary over character sequences.
pub struct SummaryView {
    pub name: Seq<char>,
    pub file_count: u32,
    pub last_updated: Seq<char>,
}

impl View for SiteSummary {
    type V = SummaryView;

    open spec fn view(&self) -> SummaryView {
        SummaryView { name: self.name@, file_count: self.file_count, last_updated: self.last_updated@ }
    }
}

pub open spec fn summary_views(v: Seq<SiteSummary>) -> Seq<SummaryView> {
    v.map_values(|s: SiteSummary| s@)
}

/// The file count of a site: the entries of its index, or, where that gives
/// none, the files of its `docs` directory.
pub open spec fn file_count_of(p: SiteProbe) -> u32 {
    let from_index: u32 = match p.index_entries {
        Some(n) => n as u32,
        None => 0,
    };
    if from_index == 0 {
        match p.docs_files {
            Some(n) => n as u32,
            None => 0,
        }
    } else {
        from_index
    }
}

/// A site is listed when it has files, an index, or a saved configuration.
pub open spec fn is_listed(p: SiteProbe) -> bool {
    file_count_of(p) > 0 || p.index_exists || p.has_config
}

pub open spec fn summary_of(p: SiteProbe) -> SummaryView {
    SummaryView {
        name: p.name@,
        file_count: file_count_of(p),
        last_updated: match p.last_updated {
            Some(t) => t@,
            None => Seq::empty(),
        },
    }
}

/// The summaries of the listed sites, in the order they were found.
pub open spec fn listed(ps: Seq<SiteProbe>) -> Seq<SummaryView>
    decreases ps.len(),
{
    if ps.len() == 0 {
        Seq::empty()
    } else if is_listed(ps.last()) {
        listed(ps.drop_last()).push(summary_of(ps.last()))
    } else {
        listed(ps.drop_last())
    }
}

/// `a` sorts before or with `b`: lexicographic order of the characters by
/// code point, which is the order of `str` (UTF-8 keeps code point order).
pub open spec fn name_le(a: Seq<char>, b: Seq<char>) -> bool
    decreases a.len(),
{
    if a.len() == 0 {
        true
    } else if b.len() == 0 {
        false
    } else if (a[0] as int) < (b[0] as int) {
        true
    } else if (a[0] as int) > (b[0] as int) {
        false
    } else {
        name_le(a.drop_first(), b.drop_first())
    }
}

/// `x` put into `s` after every entry whose name sorts before or with it.
pub open spec fn insert_by_name(s: Seq<SummaryView>, x: SummaryView) -> Seq<SummaryView>
    decreases s.len(),
{
    if s.len() == 0 || name_le(s.last().name, x.name) {
        s.push(x)
    } else {
        insert_by_name(s.drop_last(), x).push(s.last())
    }
}

/// The entries stably sorted by name.
pub open spec fn sort_by_name(s: Seq<SummaryView>) -> Seq<SummaryView>
    decreases s.len(),
{
    if s.len() == 0 {
        Seq::empty()
    } else {
        insert_by_name(sort_by_name(s.drop_last()), s.last())
    }
}

pub open spec fn sorted_by_name(s: Seq<SummaryView>) -> bool {
    forall|i: int, j: int| 0 <= i < j < s.len() ==> name_le(s[i].name, s[j].name)
}

/// The site list: the listed sites, sorted by name.
pub open spec fn site_list(ps: Seq<SiteProbe>) -> Seq<SummaryView> {
    sort_by_name(listed(ps))
}

fn name_le_exec(a: &Vec<char>, b: &Vec<char>) -> (r: bool)
    ensures
        r == name_le(a@, b@),
{
    let mut i: usize = 0;
    assert(a@.skip(0) =~= a@);
    assert(b@.skip(0) =~= b@);
    while i < a.len() && i < b.len() && a[i] == b[i]
        invariant
            i <= a.len(),
            i <= b.len(),
            name_le(a@, b@) == name_le(a@.skip(i as int), b@.skip(i as int)),
        decreases a.len() - i,
    {
        assert(a@.skip(i as int).drop_first() =~= a@.skip(i + 1));
        assert(b@.skip(i as int).drop_first() =~= b@.skip(i + 1));
        i = i + 1;
    }
    if i == a.len() {
        return true;
    }
    if i == b.len() {
        return false;
    }
    assert(a@.skip(i as int)[0] == a@[i as int]);
    assert(b@.skip(i as int)[0] == b@[i as int]);
    a[i] < b[i]
}

fn summary_of_exec(p: &SiteProbe) -> (r: SiteSummary)
    ensures
        r@ == summary_of(*p),
{
    let from_index: u32 = match p.index_entries {
        Some(n) => n as u32,
        None => 0,
    };
    let count: u32 = if from_index == 0 {
        match p.docs_files {
            Some(n) => n as u32,
            None => 0,
        }
    } else {
        from_index
    };
    let last = match &p.last_updated {
        Some(t) => t.clone(),
        None => String::new(),
    };
    SiteSummary { name: p.name.clone(), file_count: count, last_updated: last }
}

proof fn lemma_insert_by_name_split(s: Seq<SummaryView>, x: SummaryView, pos: int)
    requires
        0 <= pos <= s.len(),
        pos == 0 || name_le(s[pos - 1].name, x.name),
        forall|k: int| pos <= k < s.len() ==> !name_le(#[trigger] s[k].name, x.name),
    ensures
        insert_by_name(s, x) == s.take(pos).push(x) + s.skip(pos),
    decreases s.len(),
{
    if pos == s.len() {
        if s.len() == 0 {
            assert(s.take(pos).push(x) + s.skip(pos) =~= s.push(x));
        } else {
            assert(s.take(pos) =~= s);
            assert(s.take(pos).push(x) + s.skip(pos) =~= s.push(x));
        }
    } else {
        assert(!name_le(s.last().name, x.name));
        let t = s.drop_last();
        lemma_insert_by_name_split(t, x, pos);
        assert(t.take(pos) =~= s.take(pos));
        assert(s.take(pos).push(x) + s.skip(pos) =~= (t.take(pos).push(x) + t.skip(pos)).push(
            s.last(),
        ));
    }
}

/// The list of crawled sites: those with files, an index or a saved
/// configuration, each with its file count (the index's entries, else the
/// files of its `docs` directory) and last update time, sorted by name; sites
/// of the same name keep the order they were found in.
pub fn list_sites(probes: &Vec<SiteProbe>) -> (r: Vec<SiteSummary>)
    ensures
        summary_views(r@) == site_list(probes@),
{
    let mut out: Vec<SiteSummary> = Vec::new();
    let mut i: usize = 0;
    while i < probes.len()
        invariant
            i <= probes.len(),
            summary_views(out@) == sort_by_name(listed(probes@.take(i as int))),
        decreases probes.len() - i,
    {
        assert(probes@.take(i + 1).drop_last() =~= probes@.take(i as int));
        let p = &probes[i];
        let x = summary_of_exec(p);
        if x.file_count > 0 || p.index_exists || p.has_config {
            let ghost s = summary_views(out@);
            let xn = chars_of(x.name.as_str());
            let mut pos = out.len();
            while pos > 0 && !name_le_exec(&chars_of(out[pos - 1].name.as_str()), &xn)
                invariant
                    pos <= out.len(),
                    s == summary_views(out@),
                    xn@ == x@.name,
                    forall|k: int| pos <= k < s.len() ==> !name_le(#[trigger] s[k].name, x@.name),
                decreases pos,
            {
                pos = pos - 1;
            }
            proof {
                if pos > 0 {
                    assert(s[pos - 1] == out@[pos - 1]@);
                }
                lemma_insert_by_name_split(s, x@, pos as int);
            }
            out.insert(pos, x);
            assert(summary_views(out@) =~= s.take(pos as int).push(x@) + s.skip(pos as int));
            assert(listed(probes@.take(i + 1)) == listed(probes@.take(i as int)).push(x@));
            assert(listed(probes@.take(i as int)).push(x@).drop_last() =~= listed(
                probes@.take(i as int),
            ));
            assert(sort_by_name(listed(probes@.take(i + 1))) == insert_by_name(
                sort_by_name(listed(probes@.take(i as int))),
                x@,
            ));
        } else {
            assert(listed(probes@.take(i + 1)) == listed(probes@.take(i as int)));
        }
        i = i + 1;
    }
    assert(probes@.take(probes.len() as int) =~= probes@);
    out
}

/// `dir/name`: how a document `name` of the site `dir` is keyed.
pub open spec fn prefixed(dir: Seq<char>, name: Seq<char>) -> Seq<char> {
    dir + "/"@ + name
}

pub fn prefixed_name(dir: &str, name: &str) -> (r: String)
    ensures
        r@ == prefixed(dir@, name@),
{
    let mut s = lit(dir);
    s.append("/");
    s.append(name);
    s
}


/// A tree's entries, each name prefixed with `dir/`, with their values.
pub open spec fn prefixed_entries(
    dir: Seq<char>,
    tree: Seq<(Seq<char>, Seq<char>)>,
) -> Seq<(Seq<char>, Seq<char>)> {
    Seq::new(tree.len(), |i: int| (prefixed(dir, tree[i].0), tree[i].1))
}

fn prefixed_entries_exec(dir: &str, tree: &Vec<(String, String)>) -> (r: Vec<(String, String)>)
    ensures
        pair_views(r@) == prefixed_entries(dir@, pair_views(tree@)),
{
    let ghost target = prefixed_entries(dir@, pair_views(tree@));
    let mut out: Vec<(String, String)> = Vec::new();
    let mut i: usize = 0;
    while i < tree.len()
        invariant
            i <= tree.len(),
            target == prefixed_entries(dir@, pair_views(tree@)),
            pair_views(out@) == target.take(i as int),
        decreases tree.len() - i,
    {
        let ghost before = pair_views(out@);
        let p = prefixed_name(dir, tree[i].0.as_str());
        let v = tree[i].1.clone();
        assert(pair_views(tree@)[i as int] == (tree@[i as int].0@, tree@[i as int].1@));
        out.push((p, v));
        assert(pair_views(out@) =~= before.push((p@, v@)));
        assert(pair_views(out@) =~= target.take(i + 1));
        i = i + 1;
    }
    assert(target.take(tree.len() as int) =~= target);
    out
}

/// What is read of an index file, when its text could be read.
pub open spec fn index_record(text: Option<Seq<char>>) -> Option<
    (Option<Seq<(Seq<char>, Seq<char>)>>, Option<Seq<char>>),
> {
    match text {
        Some(t) => index_json(t),
        None => None,
    }
}

/// The entries of an index file's `file_tree`: none when its text could not
/// be read, is not JSON, or has no such object.
pub open spec fn index_tree(text: Option<Seq<char>>) -> Seq<(Seq<char>, Seq<char>)> {
    match index_record(text) {
        Some((Some(t), _)) => t,
        _ => Seq::empty(),
    }
}

/// The entries of the `file_tree` of an index file's text, when there is one.
pub fn tree_of_index(text: &Option<String>) -> (r: Vec<(String, String)>)
    ensures
        pair_views(r@) == index_tree(opt_view(*text)),
{
    match text {
        Some(t) => match parse_index_json(t.as_str()) {
            Some((Some(v), _)) => v,
            _ => Vec::new(),
        },
        None => Vec::new(),
    }
}

impl SiteProbe {
    /// What the list of sites needs of a directory, from what was found on
    /// disk: the text of its `index.json` is read for the number of entries
    /// of its `file_tree` and its `last_updated` time.
    pub fn from_index(
        name: String,
        index_exists: bool,
        index_text: Option<String>,
        docs_files: Option<usize>,
        has_config: bool,
    ) -> (r: SiteProbe)
        ensures
            r.name == name,
            r.index_exists == index_exists,
            r.docs_files == docs_files,
            r.has_config == has_config,
            r.index_entries == (match index_record(opt_view(index_text)) {
                Some((Some(t), _)) => Some(t.len() as usize),
                _ => None,
            }),
            opt_view(r.last_updated) == (match index_record(opt_view(index_text)) {
                Some((_, l)) => l,
                None => None,
            }),
    {
        let (index_entries, last_updated) = match &index_text {
            Some(t) => match parse_index_json(t.as_str()) {
                Some((tree, l)) => {
                    let n = match &tree {
                        Some(v) => Some(v.len()),
                        None => None,
                    };
                    (n, l)
                },
                None => (None, None),
            },
            None => (None, None),
        };
        SiteProbe { name, index_exists, index_entries, last_updated, docs_files, has_config }
    }
}

/// The name a document file is listed under: the file name without its last
/// extension (as `rsplit_once('.')` cuts it), or whole when it has no `.`.
pub open spec fn without_extension(fname: Seq<char>) -> Seq<char> {
    match rfind(fname, "."@) {
        Some(i) => fname.take(i as int),
        None => fname,
    }
}

fn without_extension_exec(fname: &str) -> (r: String)
    ensures
        r@ == without_extension(fname@),
{
    let c = chars_of(fname);
    let dot = chars_of(".");
    let found = rfind_exec(&c, &dot);
    match found {
        Some(i) => {
            let dlen = dot.len();
            let clen = c.len();
            assert(rfind(c@, dot@) == Some(i as nat));
            assert(i + dlen <= clen);
            let t = crate::text::take_exec(&c, i);
            string_of(&t)
        },
        None => string_of(&c),
    }
}

/// The index of one site as the front end lists it: the entries of its
/// `index.json`, each keyed `site/name` with its value, or, when that gives
/// none, its document files, without extension and keyed the same way, each
/// with an empty `source_url`.
pub open spec fn site_index_spec(
    site: Seq<char>,
    tree: Seq<(Seq<char>, Seq<char>)>,
    doc_files: Seq<Seq<char>>,
) -> Seq<(Seq<char>, Seq<char>)> {
    if tree.len() > 0 {
        prefixed_entries(site, tree)
    } else {
        Seq::new(
            doc_files.len(),
            |i: int| (prefixed(site, without_extension(doc_files[i])), "{\"source_url\":\"\"}"@),
        )
    }
}

/// The entries of a site's index from its `file_tree` entries and the
/// names of its document files.
pub fn site_index_entries(site: &str, tree: &Vec<(String, String)>, doc_files: &Vec<String>) -> (r: Vec<
    (String, String),
>)
    ensures
        pair_views(r@) == site_index_spec(site@, pair_views(tree@), views(doc_files@)),
{
    if tree.len() > 0 {
        return prefixed_entries_exec(site, tree);
    }
    let mut out: Vec<(String, String)> = Vec::new();
    let mut i: usize = 0;
    let ghost target = site_index_spec(site@, pair_views(tree@), views(doc_files@));
    while i < doc_files.len()
        invariant
            i <= doc_files.len(),
            tree.len() == 0,
            target == site_index_spec(site@, pair_views(tree@), views(doc_files@)),
            pair_views(out@) == target.take(i as int),
        decreases doc_files.len() - i,
    {
        let ghost before = pair_views(out@);
        let stem = without_extension_exec(doc_files[i].as_str());
        let p = prefixed_name(site, stem.as_str());
        let v = lit("{\"source_url\":\"\"}");
        assert(views(doc_files@)[i as int] == doc_files@[i as int]@);
        out.push((p, v));
        assert(pair_views(out@) =~= before.push((p@, v@)));
        assert(pair_views(out@) =~= target.take(i + 1));
        i = i + 1;
    }
    assert(target.take(doc_files.len() as int) =~= target);
    out
}

/// The entries of a site's index from the text of its `index.json` (when it
/// exists and could be read) and the names of its document files.
pub fn site_index_from_text(site: &str, index_text: &Option<String>, doc_files: &Vec<String>) -> (r: Vec<
    (String, String),
>)
    ensures
        pair_views(r@) == site_index_spec(site@, index_tree(opt_view(*index_text)), views(doc_files@)),
{
    let tree = tree_of_index(index_text);
    site_index_entries(site, &tree, doc_files)
}

/// The merged index of all sites: every site's entries keyed `site/name`, in
/// order; then the root index's entries under their own names, those whose
/// key is already taken left out.
pub open spec fn site_entries(sites: Seq<(Seq<char>, Seq<(Seq<char>, Seq<char>)>)>) -> Seq<
    (Seq<char>, Seq<char>),
>
    decreases sites.len(),
{
    if sites.len() == 0 {
        Seq::empty()
    } else {
        site_entries(sites.drop_last()) + prefixed_entries(sites.last().0, sites.last().1)
    }
}

pub open spec fn keys_of(e: Seq<(Seq<char>, Seq<char>)>) -> Seq<Seq<char>> {
    e.map_values(|p: (Seq<char>, Seq<char>)| p.0)
}

pub open spec fn root_entries(taken: Seq<Seq<char>>, root: Seq<(Seq<char>, Seq<char>)>) -> Seq<
    (Seq<char>, Seq<char>),
>
    decreases root.len(),
{
    if root.len() == 0 {
        Seq::empty()
    } else {
        let r = root_entries(taken, root.drop_last());
        if taken.contains(root.last().0) {
            r
        } else {
            r.push(root.last())
        }
    }
}

pub open spec fn merged_index(
    sites: Seq<(Seq<char>, Seq<(Seq<char>, Seq<char>)>)>,
    root: Seq<(Seq<char>, Seq<char>)>,
) -> Seq<(Seq<char>, Seq<char>)> {
    let s = site_entries(sites);
    s + root_entries(keys_of(s), root)
}

pub open spec fn tree_views(v: Seq<(String, Vec<(String, String)>)>) -> Seq<
    (Seq<char>, Seq<(Seq<char>, Seq<char>)>),
> {
    v.map_values(|p: (String, Vec<(String, String)>)| (p.0@, pair_views(p.1@)))
}

/// Each site's name with the entries of its index, from the index's text.
pub open spec fn site_trees(v: Seq<(String, Option<String>)>) -> Seq<
    (Seq<char>, Seq<(Seq<char>, Seq<char>)>),
> {
    v.map_values(|p: (String, Option<String>)| (p.0@, index_tree(opt_view(p.1))))
}

fn key_taken(keys: &Vec<(String, String)>, n: usize, name: &str) -> (r: bool)
    requires
        n <= keys.len(),
    ensures
        r == keys_of(pair_views(keys@.take(n as int))).contains(name@),
{
    let ghost ks = keys_of(pair_views(keys@.take(n as int)));
    let mut i: usize = 0;
    while i < n
        invariant
            i <= n <= keys.len(),
            ks == keys_of(pair_views(keys@.take(n as int))),
            forall|j: int| 0 <= j < i ==> ks[j] != name@,
        decreases n - i,
    {
        assert(ks[i as int] == keys@[i as int].0@);
        if str_eq(keys[i].0.as_str(), name) {
            return true;
        }
        i = i + 1;
    }
    false
}

/// The merged index of all sites (`sites` holds each site's name and the
/// entries of its index, `root` those of the older index at the root).
pub fn merge_index(sites: &Vec<(String, Vec<(String, String)>)>, root: &Vec<(String, String)>) -> (r: Vec<
    (String, String),
>)
    ensures
        pair_views(r@) == merged_index(tree_views(sites@), pair_views(root@)),
{
    let mut out: Vec<(String, String)> = Vec::new();
    let mut k: usize = 0;
    while k < sites.len()
        invariant
            k <= sites.len(),
            pair_views(out@) == site_entries(tree_views(sites@.take(k as int))),
        decreases sites.len() - k,
    {
        assert(tree_views(sites@.take(k + 1)).drop_last() =~= tree_views(sites@.take(k as int)));
        let ghost before = pair_views(out@);
        let ghost site = tree_views(sites@.take(k + 1)).last();
        assert(site == (sites@[k as int].0@, pair_views(sites@[k as int].1@)));
        let block = prefixed_entries_exec(sites[k].0.as_str(), &sites[k].1);
        let mut j: usize = 0;
        while j < block.len()
            invariant
                j <= block.len(),
                pair_views(out@) == before + pair_views(block@).take(j as int),
            decreases block.len() - j,
        {
            let ghost prev = pair_views(out@);
            let e = (block[j].0.clone(), block[j].1.clone());
            out.push(e);
            assert(pair_views(out@) =~= prev.push((block@[j as int].0@, block@[j as int].1@)));
            assert(pair_views(out@) =~= before + pair_views(block@).take(j + 1));
            j = j + 1;
        }
        assert(pair_views(block@).take(block.len() as int) =~= pair_views(block@));
        assert(pair_views(out@) =~= site_entries(tree_views(sites@.take(k + 1))));
        k = k + 1;
    }
    assert(sites@.take(sites.len() as int) =~= sites@);
    let n = out.len();
    let ghost s = pair_views(out@);
    assert(out@.take(n as int) =~= out@);
    let mut i: usize = 0;
    while i < root.len()
        invariant
            i <= root.len(),
            n <= out.len(),
            s == site_entries(tree_views(sites@)),
            s == pair_views(out@.take(n as int)),
            pair_views(out@) == s + root_entries(keys_of(s), pair_views(root@).take(i as int)),
        decreases root.len() - i,
    {
        assert(pair_views(root@).take(i + 1).drop_last() =~= pair_views(root@).take(i as int));
        assert(pair_views(root@).take(i + 1).last() == (root@[i as int].0@, root@[i as int].1@));
        let ghost prev = pair_views(out@);
        let ghost prev_raw = out@;
        if !key_taken(&out, n, root[i].0.as_str()) {
            out.push((root[i].0.clone(), root[i].1.clone()));
            assert(pair_views(out@) =~= prev.push((root@[i as int].0@, root@[i as int].1@)));
            assert(out@.take(n as int) =~= prev_raw.take(n as int));
        }
        i = i + 1;
    }
    assert(pair_views(root@).take(root.len() as int) =~= pair_views(root@));
    out
}

/// The merged index of all sites from the texts of their `index.json` files
/// (each site's name with the text, when it exists and could be read) and of
/// the older index at the root.
pub fn merge_index_texts(sites: &Vec<(String, Option<String>)>, root: &Option<String>) -> (r: Vec<
    (String, String),
>)
    ensures
        pair_views(r@) == merged_index(site_trees(sites@), index_tree(opt_view(*root))),
{
    let mut trees: Vec<(String, Vec<(String, String)>)> = Vec::new();
    let mut i: usize = 0;
    while i < sites.len()
        invariant
            i <= sites.len(),
            tree_views(trees@) == site_trees(sites@).take(i as int),
        decreases sites.len() - i,
    {
        let ghost before = tree_views(trees@);
        let t = tree_of_index(&sites[i].1);
        let name = sites[i].0.clone();
        trees.push((name, t));
        assert(tree_views(trees@) =~= before.push((sites@[i as int].0@, pair_views(t@))));
        assert(tree_views(trees@) =~= site_trees(sites@).take(i + 1));
        i = i + 1;
    }
    assert(site_trees(sites@).take(sites.len() as int) =~= site_trees(sites@));
    let root_tree = tree_of_index(root);
    merge_index(&trees, &root_tree)
}

/// A file name split as `Path::file_stem` and `Path::extension` split it:
/// at the last `.`, unless there is none or the only one opens the name, in
/// which case the whole name is the stem and there is no extension.
pub open spec fn stem_and_extension(name: Seq<char>) -> (Seq<char>, Option<Seq<char>>) {
    match rfind(name, "."@) {
        Some(k) => if k == 0 {
            (name, None)
        } else {
            (name.take(k as int), Some(name.skip((k + 1) as int)))
        },
        None => (name, None),
    }
}

fn stem_and_extension_exec(name: &str) -> (r: (String, Option<String>))
    ensures
        r.0@ == stem_and_extension(name@).0,
        r.1 matches Some(e) ==> stem_and_extension(name@).1 == Some(e@),
        r.1 is None ==> stem_and_extension(name@).1 is None,
{
    let c = chars_of(name);
    let dot = chars_of(".");
    let found = rfind_exec(&c, &dot);
    match found {
        Some(k) => {
            let dlen = dot.len();
            let clen = c.len();
            assert(rfind(c@, dot@) == Some(k as nat));
            assert(k + dlen <= clen);
            proof {
                reveal_strlit(".");
            }
            assert(dlen == 1);
            if k == 0 {
                (string_of(&c), None)
            } else {
                let stem = crate::text::take_exec(&c, k);
                let ext = crate::text::skip_exec(&c, k + 1);
                (string_of(&stem), Some(string_of(&ext)))
            }
        },
        None => (string_of(&c), None),
    }
}

/// A `meta` file's text read as JSON and written back, when its name has
/// the `json` extension and the text is JSON.
pub open spec fn meta_values(files: Seq<(Seq<char>, Seq<char>)>) -> Seq<(Seq<char>, Option<Seq<char>>)> {
    Seq::new(
        files.len(),
        |i: int|
            (files[i].0, if stem_and_extension(files[i].0).1 == Some("json"@) {
                json_value_text(files[i].1)
            } else {
                None
            }),
    )
}

/// The index entries read from a site's `meta` directory: each `.json` file
/// whose text is JSON, keyed `site/stem`, with its value.
pub open spec fn meta_entries(site: Seq<char>, files: Seq<(Seq<char>, Option<Seq<char>>)>) -> Seq<
    (Seq<char>, Seq<char>),
>
    decreases files.len(),
{
    if files.len() == 0 {
        Seq::empty()
    } else {
        let r = meta_entries(site, files.drop_last());
        let se = stem_and_extension(files.last().0);
        match files.last().1 {
            Some(v) => if se.1 == Some("json"@) {
                r.push((prefixed(site, se.0), v))
            } else {
                r
            },
            None => r,
        }
    }
}

/// The entries of a site's index for the search: its `index.json` entries
/// keyed `site/name` when the file exists, else its `meta` `.json` files.
pub open spec fn site_index_core_spec(
    site: Seq<char>,
    index_exists: bool,
    tree: Seq<(Seq<char>, Seq<char>)>,
    meta: Seq<(Seq<char>, Option<Seq<char>>)>,
) -> Seq<(Seq<char>, Seq<char>)> {
    if index_exists {
        prefixed_entries(site, tree)
    } else {
        meta_entries(site, meta)
    }
}

pub open spec fn meta_views(v: Seq<(String, Option<String>)>) -> Seq<(Seq<char>, Option<Seq<char>>)> {
    v.map_values(|p: (String, Option<String>)| (p.0@, opt_view(p.1)))
}

/// The entries of a site's index for the search, from the entries of its
/// `index.json` (used when the file exists) and its `meta` files (each name
/// with its JSON value); an error naming the site when that leaves none.
pub fn site_index_core_entries(
    site: &str,
    index_exists: bool,
    tree: &Vec<(String, String)>,
    meta: &Vec<(String, Option<String>)>,
) -> (r: Result<Vec<(String, String)>, String>)
    ensures
        site_index_core_spec(site@, index_exists, pair_views(tree@), meta_views(meta@)).len() > 0
            ==> (r matches Ok(v) && pair_views(v@) == site_index_core_spec(
            site@,
            index_exists,
            pair_views(tree@),
            meta_views(meta@),
        )),
        site_index_core_spec(site@, index_exists, pair_views(tree@), meta_views(meta@)).len() == 0
            ==> (r matches Err(e) && e@ == "No index found for site: "@ + site@),
{
    let out = if index_exists {
        prefixed_entries_exec(site, tree)
    } else {
        let mut out: Vec<(String, String)> = Vec::new();
        let mut i: usize = 0;
        while i < meta.len()
            invariant
                i <= meta.len(),
                pair_views(out@) == meta_entries(site@, meta_views(meta@).take(i as int)),
            decreases meta.len() - i,
        {
            assert(meta_views(meta@).take(i + 1).drop_last() =~= meta_views(meta@).take(i as int));
            assert(meta_views(meta@).take(i + 1).last() == (meta@[i as int].0@, opt_view(
                meta@[i as int].1,
            )));
            let ghost before = pair_views(out@);
            match &meta[i].1 {
                Some(v) => {
                    let (stem, ext) = stem_and_extension_exec(meta[i].0.as_str());
                    let is_json = match &ext {
                        Some(e) => str_eq(e.as_str(), "json"),
                        None => false,
                    };
                    if is_json {
                        let p = prefixed_name(site, stem.as_str());
                        out.push((p, v.clone()));
                        assert(pair_views(out@) =~= before.push((p@, v@)));
                    }
                },
                None => {},
            }
            i = i + 1;
        }
        assert(meta_views(meta@).take(meta.len() as int) =~= meta_views(meta@));
        out
    };
    if out.len() == 0 {
        let mut e = lit("No index found for site: ");
        e.append(site);
        return Err(e);
    }
    Ok(out)
}

/// The entries of a site's index for the search, from the text of its
/// `index.json` (when the file exists; `None` when it could not be read) and
/// the names and texts of the files of its `meta` directory; an error
/// naming the site when that leaves none.
pub fn site_index_core_from_texts(
    site: &str,
    index_exists: bool,
    index_text: &Option<String>,
    meta_files: &Vec<(String, String)>,
) -> (r: Result<Vec<(String, String)>, String>)
    ensures
        site_index_core_spec(
            site@,
            index_exists,
            index_tree(opt_view(*index_text)),
            meta_values(pair_views(meta_files@)),
        ).len() > 0 ==> (r matches Ok(v) && pair_views(v@) == site_index_core_spec(
            site@,
            index_exists,
            index_tree(opt_view(*index_text)),
            meta_values(pair_views(meta_files@)),
        )),
        site_index_core_spec(
            site@,
            index_exists,
            index_tree(opt_view(*index_text)),
            meta_values(pair_views(meta_files@)),
        ).len() == 0 ==> (r matches Err(e) && e@ == "No index found for site: "@ + site@),
{
    let tree = tree_of_index(index_text);
    let ghost mv = meta_values(pair_views(meta_files@));
    let mut meta: Vec<(String, Option<String>)> = Vec::new();
    if !index_exists {
        let mut i: usize = 0;
        while i < meta_files.len()
            invariant
                i <= meta_files.len(),
                mv == meta_values(pair_views(meta_files@)),
                meta_views(meta@) == mv.take(i as int),
            decreases meta_files.len() - i,
        {
            let ghost before = meta_views(meta@);
            let name = meta_files[i].0.as_str();
            let (_, ext) = stem_and_extension_exec(name);
            let is_json = match &ext {
                Some(e) => str_eq(e.as_str(), "json"),
                None => false,
            };
            let value = if is_json {
                parse_json_value(meta_files[i].1.as_str())
            } else {
                None
            };
            assert(pair_views(meta_files@)[i as int] == (meta_files@[i as int].0@, meta_files@[i as int].1@));
            meta.push((meta_files[i].0.clone(), value));
            assert(meta_views(meta@) =~= before.push((name@, opt_view(value))));
            assert(meta_views(meta@) =~= mv.take(i + 1));
            i = i + 1;
        }
        assert(mv.take(meta_files.len() as int) =~= mv);
    }
    site_index_core_entries(site, index_exists, &tree, &meta)
}


proof fn lemma_name_le_total(a: Seq<char>, b: Seq<char>)
    ensures
        name_le(a, b) || name_le(b, a),
    decreases a.len(),
{
    if a.len() > 0 && b.len() > 0 && a[0] == b[0] {
        lemma_name_le_total(a.drop_first(), b.drop_first());
    }
}

proof fn lemma_name_le_trans(a: Seq<char>, b: Seq<char>, c: Seq<char>)
    requires
        name_le(a, b),
        name_le(b, c),
    ensures
        name_le(a, c),
    decreases a.len(),
{
    if a.len() > 0 && b.len() > 0 && c.len() > 0 {
        if a[0] == b[0] && b[0] == c[0] {
            lemma_name_le_trans(a.drop_first(), b.drop_first(), c.drop_first());
        }
    }
}

/// Every entry of `s`, and `x`, sorts before or with `y`; so does every entry
/// once `x` is put in.
proof fn lemma_insert_bounded(s: Seq<SummaryView>, x: SummaryView, y: Seq<char>)
    requires
        forall|i: int| 0 <= i < s.len() ==> name_le(#[trigger] s[i].name, y),
        name_le(x.name, y),
    ensures
        forall|i: int|
            0 <= i < insert_by_name(s, x).len() ==> name_le(
                #[trigger] insert_by_name(s, x)[i].name,
                y,
            ),
    decreases s.len(),
{
    let r = insert_by_name(s, x);
    if s.len() == 0 || name_le(s.last().name, x.name) {
        assert forall|i: int| 0 <= i < r.len() implies name_le(#[trigger] r[i].name, y) by {
            if i < s.len() {
                assert(r[i] == s[i]);
            }
        }
    } else {
        let t = s.drop_last();
        assert forall|i: int| 0 <= i < t.len() implies name_le(#[trigger] t[i].name, y) by {
            assert(t[i] == s[i]);
        }
        lemma_insert_bounded(t, x, y);
        let q = insert_by_name(t, x);
        assert forall|i: int| 0 <= i < r.len() implies name_le(#[trigger] r[i].name, y) by {
            if i < q.len() {
                assert(r[i] == q[i]);
            } else {
                assert(r[i] == s.last());
            }
        }
    }
}

proof fn lemma_insert_sorted(s: Seq<SummaryView>, x: SummaryView)
    requires
        sorted_by_name(s),
    ensures
        sorted_by_name(insert_by_name(s, x)),
        insert_by_name(s, x).to_multiset() == s.to_multiset().insert(x),
    decreases s.len(),
{
    broadcast use vstd::seq_lib::group_to_multiset_ensures;

    let r = insert_by_name(s, x);
    if s.len() == 0 || name_le(s.last().name, x.name) {
        assert forall|i: int, j: int| 0 <= i < j < r.len() implies name_le(
            r[i].name,
            r[j].name,
        ) by {
            if j < s.len() {
                assert(r[i] == s[i] && r[j] == s[j]);
            } else {
                assert(r[i] == s[i]);
                if i < s.len() - 1 {
                    lemma_name_le_trans(s[i].name, s.last().name, x.name);
                }
            }
        }
    } else {
        let t = s.drop_last();
        let l = s.last();
        assert(sorted_by_name(t)) by {
            assert forall|i: int, j: int| 0 <= i < j < t.len() implies name_le(
                t[i].name,
                t[j].name,
            ) by {
                assert(t[i] == s[i] && t[j] == s[j]);
            }
        }
        lemma_insert_sorted(t, x);
        lemma_name_le_total(l.name, x.name);
        assert forall|i: int| 0 <= i < t.len() implies name_le(#[trigger] t[i].name, l.name) by {
            assert(t[i] == s[i]);
        }
        lemma_insert_bounded(t, x, l.name);
        let q = insert_by_name(t, x);
        assert forall|i: int, j: int| 0 <= i < j < r.len() implies name_le(
            r[i].name,
            r[j].name,
        ) by {
            assert(r[i] == q[i]);
            if j < q.len() {
                assert(r[j] == q[j]);
            } else {
                assert(r[j] == l);
            }
        }
        assert(t.push(l) =~= s);
        assert(r.to_multiset() =~= q.to_multiset().insert(l));
    }
}

/// The site list is sorted by name, and holds exactly the listed sites.
pub proof fn lemma_site_list(ps: Seq<SiteProbe>)
    ensures
        sorted_by_name(site_list(ps)),
        site_list(ps).to_multiset() == listed(ps).to_multiset(),
{
    lemma_sort_by_name(listed(ps));
}

/// Sorting by name keeps every entry and puts them in order.
pub proof fn lemma_sort_by_name(s: Seq<SummaryView>)
    ensures
        sorted_by_name(sort_by_name(s)),
        sort_by_name(s).to_multiset() == s.to_multiset(),
    decreases s.len(),
{
    broadcast use vstd::seq_lib::group_to_multiset_ensures;

    if s.len() > 0 {
        lemma_sort_by_name(s.drop_last());
        lemma_insert_sorted(sort_by_name(s.drop_last()), s.last());
        assert(s.drop_last().push(s.last()) =~= s);
    }
}

/// No entry of the older root index is merged under a key a site already uses.
pub proof fn lemma_root_entries_fresh(taken: Seq<Seq<char>>, root: Seq<(Seq<char>, Seq<char>)>)
    ensures
        forall|i: int|
            0 <= i < root_entries(taken, root).len() ==> !taken.contains(
                (#[trigger] root_entries(taken, root)[i]).0,
            ),
    decreases root.len(),
{
    if root.len() > 0 {
        let r = root_entries(taken, root.drop_last());
        lemma_root_entries_fresh(taken, root.drop_last());
        assert forall|i: int| 0 <= i < root_entries(taken, root).len() implies !taken.contains(
            (#[trigger] root_entries(taken, root)[i]).0,
        ) by {
            if i < r.len() {
                assert(root_entries(taken, root)[i] == r[i]);
            }
        }
    }
}


proof fn lemma_listed_contains(ps: Seq<SiteProbe>, i: int)
    requires
        0 <= i < ps.len(),
        is_listed(ps[i]),
    ensures
        listed(ps).contains(summary_of(ps[i])),
    decreases ps.len(),
{
    if i == ps.len() - 1 {
        assert(listed(ps).last() == summary_of(ps[i]));
    } else {
        lemma_listed_contains(ps.drop_last(), i);
        let k = choose|k: int| 0 <= k < listed(ps.drop_last()).len() && listed(ps.drop_last())[k]
            == summary_of(ps[i]);
        assert(listed(ps)[k] == summary_of(ps[i]));
    }
}

/// A site's file count is the number of entries of its index whenever that
/// number is positive (and fits a `u32`), whatever its `docs` directory
/// holds; only where the index gives no entries does the number of files of
/// its `docs` directory stand in. Either way the site is listed.
pub proof fn lemma_file_count_prefers_index(ps: Seq<SiteProbe>, i: int)
    requires
        0 <= i < ps.len(),
    ensures
        (ps[i].index_entries matches Some(n) && 0 < n <= u32::MAX) ==> exists|j: int|
            0 <= j < site_list(ps).len() && (#[trigger] site_list(ps)[j]).name == ps[i].name@
                && site_list(ps)[j].file_count == ps[i].index_entries->0,
        ((ps[i].index_entries is None || ps[i].index_entries == Some(0usize)) && (
        ps[i].docs_files matches Some(d) && 0 < d <= u32::MAX)) ==> exists|j: int|
            0 <= j < site_list(ps).len() && (#[trigger] site_list(ps)[j]).name == ps[i].name@
                && site_list(ps)[j].file_count == ps[i].docs_files->0,
{
    broadcast use vstd::seq_lib::group_to_multiset_ensures;

    let p = ps[i];
    if is_listed(p) {
        lemma_listed_contains(ps, i);
        lemma_site_list(ps);
        assert(site_list(ps).to_multiset().count(summary_of(p)) > 0);
        assert(site_list(ps).contains(summary_of(p)));
        let j = choose|j: int| 0 <= j < site_list(ps).len() && site_list(ps)[j] == summary_of(p);
        assert(site_list(ps)[j] == summary_of(p));
    }
}

} // verus!
