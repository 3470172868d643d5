//! Where the application keeps its files: the data directory, paths under
//! it, the places a crawled document may lie, and the names of saved files.
//!
//! Which files exist is read by the caller; here it is handed in as the list
//! of paths known to exist.
use vstd::prelude::*;
use crate::text::{
    chars_of, char_is_alphanumeric, contains, is_alphanumeric, lines, lines_exec, lit,
    push_char, split_once, split_once_exec, starts_with, starts_with_exec, str_eq, string_of,
    strip_prefix, strip_prefix_exec, trim, trim_exec, views,
};

verus! {

/// Calls `Path::join` on two paths given as text, and gives the joined path
/// back as text.
#[verifier::external_body]
pub(crate) fn join_path(base: &str, part: &str) -> (r: String)
    ensures
        r@ == joined_path(base@, part@),
{
    std::path::Path::new(base).join(part).to_string_lossy().into_owned()
}

/// `Path::join`: `part` adjoined to `base` (a separator between them, or
/// `part` alone where it is absolute).
pub uninterp spec fn joined_path(base: Seq<char>, part: Seq<char>) -> Seq<char>;

/// Calls `Path::ends_with`: whether the last components of `path` are `child`.
#[verifier::external_body]
fn path_ends_with(path: &str, child: &str) -> (r: bool)
    ensures
        r == path_ends_with_components(path@, child@),
{
    std::path::Path::new(path).ends_with(child)
}

/// `Path::ends_with`, which compares whole components.
pub uninterp spec fn path_ends_with_components(path: Seq<char>, child: Seq<char>) -> bool;

/// Calls `Path::parent`: the path without its last component, if it has one.
#[verifier::external_body]
fn path_parent(path: &str) -> (r: Option<String>)
    ensures
        r matches Some(p) ==> parent_path(path@) == Some(p@),
        r is None ==> parent_path(path@) is None,
{
    match std::path::Path::new(path).parent() {
        Some(p) => Some(p.to_string_lossy().into_owned()),
        None => None,
    }
}

/// `Path::parent`.
pub uninterp spec fn parent_path(path: Seq<char>) -> Option<Seq<char>>;

/// Whether a path is among those known to exist.
pub open spec fn known(existing: Seq<Seq<char>>, p: Seq<char>) -> bool {
    existing.contains(p)
}

fn known_exec(existing: &Vec<String>, p: &str) -> (r: bool)
    ensures
        r == known(views(existing@), p@),
{
    let mut i: usize = 0;
    while i < existing.len()
        invariant
            i <= existing.len(),
            forall|j: int| 0 <= j < i ==> existing@[j]@ != p@,
        decreases existing.len() - i,
    {
        if str_eq(existing[i].as_str(), p) {
            assert(views(existing@)[i as int] == p@);
            return true;
        }
        i = i + 1;
    }
    assert forall|j: int| 0 <= j < views(existing@).len() implies views(existing@)[j] != p@ by {
        assert(views(existing@)[j] == existing@[j]@);
    }
    false
}

/// The project root when running from a checkout: the working directory, or
/// its parent when the working directory is `src-tauri`.
pub open spec fn dev_root(cwd: Seq<char>) -> Seq<char> {
    if path_ends_with_components(cwd, "src-tauri"@) {
        match parent_path(cwd) {
            Some(p) => p,
            None => cwd,
        }
    } else {
        cwd
    }
}

/// The project root when running from a checkout, from the working directory.
pub fn dev_project_root(cwd: &str) -> (r: String)
    ensures
        r@ == dev_root(cwd@),
{
    if path_ends_with(cwd, "src-tauri") {
        match path_parent(cwd) {
            Some(p) => p,
            None => lit(cwd),
        }
    } else {
        lit(cwd)
    }
}

/// `python/crawler.py` under a directory.
pub open spec fn crawler_script_under(root: Seq<char>) -> Seq<char> {
    joined_path(joined_path(root, "python"@), "crawler.py"@)
}

fn crawler_script_under_exec(root: &str) -> (r: String)
    ensures
        r@ == crawler_script_under(root@),
{
    let py = join_path(root, "python");
    join_path(py.as_str(), "crawler.py")
}

/// Running from a checkout: the project root holds `python/crawler.py`.
pub fn is_dev_mode(cwd: &str, existing: &Vec<String>) -> (r: bool)
    ensures
        r == known(views(existing@), crawler_script_under(dev_root(cwd@))),
{
    let root = dev_project_root(cwd);
    let script = crawler_script_under_exec(root.as_str());
    known_exec(existing, script.as_str())
}

/// The data directory: the project root in a checkout; once installed,
/// `~/.config/dpcrawler` (with `/tmp` for a missing home), or
/// `%APPDATA%/dpcrawler` on Windows (with `.` for a missing `APPDATA`).
pub open spec fn data_dir_spec(
    dev: bool,
    cwd: Seq<char>,
    windows: bool,
    home: Option<Seq<char>>,
    appdata: Option<Seq<char>>,
) -> Seq<char> {
    if dev {
        dev_root(cwd)
    } else if windows {
        joined_path(
            match appdata {
                Some(a) => a,
                None => "."@,
            },
            "dpcrawler"@,
        )
    } else {
        joined_path(
            joined_path(
                match home {
                    Some(h) => h,
                    None => "/tmp"@,
                },
                ".config"@,
            ),
            "dpcrawler"@,
        )
    }
}

pub open spec fn opt_str(o: Option<String>) -> Option<Seq<char>> {
    match o {
        Some(s) => Some(s@),
        None => None,
    }
}

/// The data directory for config and output (see `data_dir_spec`), from
/// whether this is a checkout, the working directory, whether the system is
/// Windows, and the `HOME` and `APPDATA` variables.
pub fn data_dir(
    dev: bool,
    cwd: &str,
    windows: bool,
    home: Option<String>,
    appdata: Option<String>,
) -> (r: String)
    ensures
        r@ == data_dir_spec(dev, cwd@, windows, opt_str(home), opt_str(appdata)),
{
    if dev {
        dev_project_root(cwd)
    } else if windows {
        let a = match appdata {
            Some(a) => a,
            None => lit("."),
        };
        join_path(a.as_str(), "dpcrawler")
    } else {
        let h = match home {
            Some(h) => h,
            None => lit("/tmp"),
        };
        let c = join_path(h.as_str(), ".config");
        join_path(c.as_str(), "dpcrawler")
    }
}

/// A relative path resolved against the data directory.
pub fn resolve_path(data_dir: &str, relative: &str) -> (r: String)
    ensures
        r@ == joined_path(data_dir@, relative@),
{
    join_path(data_dir, relative)
}

/// The extensions a crawled document may have, in the order they are tried.
pub open spec fn doc_extensions() -> Seq<Seq<char>> {
    seq![
        ".md"@,
        ".html"@,
        ".htm"@,
        ".txt"@,
        ".pdf"@,
        ".doc"@,
        ".docx"@,
        ".xls"@,
        ".xlsx"@,
        ".ppt"@,
        ".pptx"@,
        ".csv"@,
        ".xml"@,
        ".json"@,
        ".rtf"@,
        ".odt"@,
        ".epub"@,
        ".rst"@,
        ".yaml"@,
        ".yml"@,
        ".log"@,
        ".tex"@,
    ]
}

pub fn doc_extensions_exec() -> (r: Vec<String>)
    ensures
        views(r@) == doc_extensions(),
{
    let r = vec![
        lit(".md"),
        lit(".html"),
        lit(".htm"),
        lit(".txt"),
        lit(".pdf"),
        lit(".doc"),
        lit(".docx"),
        lit(".xls"),
        lit(".xlsx"),
        lit(".ppt"),
        lit(".pptx"),
        lit(".csv"),
        lit(".xml"),
        lit(".json"),
        lit(".rtf"),
        lit(".odt"),
        lit(".epub"),
        lit(".rst"),
        lit(".yaml"),
        lit(".yml"),
        lit(".log"),
        lit(".tex"),
    ];
    assert(views(r@) =~= doc_extensions());
    r
}

/// A file name `site/page` split into its site directory and page (an empty
/// site when there is no `/`), as `splitn(2, '/')` parts it.
pub open spec fn site_and_page(filename: Seq<char>) -> (Seq<char>, Seq<char>) {
    match split_once(filename, "/"@) {
        Some(p) => p,
        None => (Seq::empty(), filename),
    }
}

pub(crate) fn site_and_page_exec(filename: &str) -> (r: (String, String))
    ensures
        (r.0@, r.1@) == site_and_page(filename@),
{
    let c = chars_of(filename);
    match split_once_exec(&c, &chars_of("/")) {
        Some(p) => (string_of(&p.0), string_of(&p.1)),
        None => (String::new(), lit(filename)),
    }
}

/// Where a document `site/page` with extension `ext` lies under `base`:
/// `base/site/docs/page.ext`, or `base/docs/page.ext` without a site.
pub open spec fn docs_path(base: Seq<char>, filename: Seq<char>, ext: Seq<char>) -> Seq<char> {
    let (site, page) = site_and_page(filename);
    if site.len() == 0 {
        joined_path(joined_path(base, "docs"@), page + ext)
    } else {
        joined_path(joined_path(joined_path(base, site), "docs"@), page + ext)
    }
}

fn docs_path_exec(base: &str, site: &str, page: &str, ext: &str) -> (r: String)
    ensures
        r@ == (if site@.len() == 0 {
            joined_path(joined_path(base@, "docs"@), page@ + ext@)
        } else {
            joined_path(joined_path(joined_path(base@, site@), "docs"@), page@ + ext@)
        }),
{
    let mut name = lit(page);
    name.append(ext);
    if site.is_empty() {
        let d = join_path(base, "docs");
        join_path(d.as_str(), name.as_str())
    } else {
        let s = join_path(base, site);
        let d = join_path(s.as_str(), "docs");
        join_path(d.as_str(), name.as_str())
    }
}

/// The first extension (in the order tried) for which `path(ext)` is known
/// to exist, as the path.
pub open spec fn first_known(
    existing: Seq<Seq<char>>,
    paths: Seq<Seq<char>>,
) -> Option<Seq<char>>
    decreases paths.len(),
{
    if paths.len() == 0 {
        None
    } else if known(existing, paths[0]) {
        Some(paths[0])
    } else {
        first_known(existing, paths.drop_first())
    }
}

/// The places a processed document `site/page` may lie, one per extension.
pub open spec fn processed_candidates(base: Seq<char>, filename: Seq<char>) -> Seq<Seq<char>> {
    doc_extensions().map_values(|ext: Seq<char>| docs_path(base, filename, ext))
}

/// The places the content of `site/page` may lie: for each extension, the
/// `docs` place and then the older flat place `base/site/page.ext`.
pub open spec fn content_candidates(base: Seq<char>, filename: Seq<char>) -> Seq<Seq<char>> {
    content_candidates_upto(base, filename, doc_extensions().len())
}

pub open spec fn content_candidates_upto(base: Seq<char>, filename: Seq<char>, n: nat) -> Seq<
    Seq<char>,
>
    decreases n,
{
    if n == 0 {
        Seq::empty()
    } else {
        let ext = doc_extensions()[n - 1];
        content_candidates_upto(base, filename, (n - 1) as nat) + seq![
            docs_path(base, filename, ext),
            joined_path(base, filename + ext),
        ]
    }
}

proof fn lemma_first_known_append(existing: Seq<Seq<char>>, a: Seq<Seq<char>>, b: Seq<Seq<char>>)
    ensures
        first_known(existing, a + b) == (match first_known(existing, a) {
            Some(p) => Some(p),
            None => first_known(existing, b),
        }),
    decreases a.len(),
{
    if a.len() > 0 {
        assert((a + b).drop_first() =~= a.drop_first() + b);
        assert((a + b)[0] == a[0]);
        lemma_first_known_append(existing, a.drop_first(), b);
    } else {
        assert(a + b =~= b);
    }
}

/// Finds the first candidate known to exist, going through `candidates` in order.
fn first_known_exec(existing: &Vec<String>, candidates: &Vec<String>) -> (r: Option<String>)
    ensures
        opt_str(r) == first_known(views(existing@), views(candidates@)),
{
    let mut i: usize = 0;
    assert(views(candidates@).skip(0) =~= views(candidates@));
    while i < candidates.len()
        invariant
            i <= candidates.len(),
            first_known(views(existing@), views(candidates@)) == first_known(
                views(existing@),
                views(candidates@).skip(i as int),
            ),
        decreases candidates.len() - i,
    {
        let ghost rest = views(candidates@).skip(i as int);
        assert(rest[0] == candidates@[i as int]@);
        assert(rest.drop_first() =~= views(candidates@).skip(i + 1));
        if known_exec(existing, candidates[i].as_str()) {
            return Some(candidates[i].clone());
        }
        i = i + 1;
    }
    assert(views(candidates@).skip(i as int).len() == 0);
    None
}

fn processed_candidates_exec(base: &str, filename: &str) -> (r: Vec<String>)
    ensures
        views(r@) == processed_candidates(base@, filename@),
{
    let exts = doc_extensions_exec();
    let (site, page) = site_and_page_exec(filename);
    let mut out: Vec<String> = Vec::new();
    let mut i: usize = 0;
    while i < exts.len()
        invariant
            i <= exts.len(),
            views(exts@) == doc_extensions(),
            (site@, page@) == site_and_page(filename@),
            views(out@) == processed_candidates(base@, filename@).take(i as int),
        decreases exts.len() - i,
    {
        assert(views(exts@)[i as int] == exts@[i as int]@);
        let ghost before = views(out@);
        let p = docs_path_exec(base, site.as_str(), page.as_str(), exts[i].as_str());
        assert(processed_candidates(base@, filename@)[i as int] == docs_path(
            base@,
            filename@,
            exts@[i as int]@,
        ));
        assert(p@ == docs_path(base@, filename@, exts@[i as int]@));
        out.push(p);
        assert(views(out@) =~= before.push(p@));
        assert(views(out@) =~= processed_candidates(base@, filename@).take(i + 1));
        i = i + 1;
    }
    assert(processed_candidates(base@, filename@).take(exts.len() as int) =~= processed_candidates(
        base@,
        filename@,
    ));
    out
}

/// The path of a processed document `site/page` under the output directory:
/// the first of its `docs` places (one per extension, in order) known to
/// exist; an error naming the file when none is.
pub fn get_processed_file_path_core(
    data_dir: &str,
    output_dir: &str,
    filename: &str,
    existing: &Vec<String>,
) -> (r: Result<String, String>)
    ensures
        match first_known(
            views(existing@),
            processed_candidates(joined_path(data_dir@, output_dir@), filename@),
        ) {
            Some(p) => r matches Ok(q) && q@ == p,
            None => r matches Err(e) && e@ == "Processed file not found: "@ + filename@,
        },
{
    let base = resolve_path(data_dir, output_dir);
    let candidates = processed_candidates_exec(base.as_str(), filename);
    match first_known_exec(existing, &candidates) {
        Some(p) => Ok(p),
        None => {
            let mut e = lit("Processed file not found: ");
            e.append(filename);
            Err(e)
        },
    }
}

fn content_candidates_exec(base: &str, filename: &str) -> (r: Vec<String>)
    ensures
        views(r@) == content_candidates(base@, filename@),
{
    let exts = doc_extensions_exec();
    let (site, page) = site_and_page_exec(filename);
    let mut out: Vec<String> = Vec::new();
    let mut i: usize = 0;
    while i < exts.len()
        invariant
            i <= exts.len(),
            views(exts@) == doc_extensions(),
            (site@, page@) == site_and_page(filename@),
            views(out@) == content_candidates_upto(base@, filename@, i as nat),
        decreases exts.len() - i,
    {
        assert(views(exts@)[i as int] == exts@[i as int]@);
        let ghost before = views(out@);
        out.push(docs_path_exec(base, site.as_str(), page.as_str(), exts[i].as_str()));
        let mut flat = lit(filename);
        flat.append(exts[i].as_str());
        out.push(join_path(base, flat.as_str()));
        assert(views(out@) =~= content_candidates_upto(base@, filename@, (i + 1) as nat));
        i = i + 1;
    }
    out
}

/// The file holding the content of `site/page` under the output directory:
/// for each extension in order, its `docs` place and then its older flat
/// place; the first known to exist is read. An error naming the file when
/// none is.
pub fn content_file_path(
    data_dir: &str,
    output_dir: &str,
    filename: &str,
    existing: &Vec<String>,
) -> (r: Result<String, String>)
    ensures
        match first_known(
            views(existing@),
            content_candidates(joined_path(data_dir@, output_dir@), filename@),
        ) {
            Some(p) => r matches Ok(q) && q@ == p,
            None => r matches Err(e) && e@ == "File not found: "@ + filename@,
        },
{
    let base = resolve_path(data_dir, output_dir);
    let candidates = content_candidates_exec(base.as_str(), filename);
    match first_known_exec(existing, &candidates) {
        Some(p) => Ok(p),
        None => {
            let mut e = lit("File not found: ");
            e.append(filename);
            Err(e)
        },
    }
}

/// What a link opens: a web address as it is, anything else as a path under
/// the data directory (without a leading `./`).
pub open spec fn open_target_spec(data_dir: Seq<char>, url: Seq<char>) -> Seq<char> {
    if starts_with(url, "http://"@) || starts_with(url, "https://"@) {
        url
    } else {
        joined_path(
            data_dir,
            match strip_prefix(url, "./"@) {
                Some(rest) => rest,
                None => url,
            },
        )
    }
}

pub fn open_target(data_dir: &str, url: &str) -> (r: String)
    ensures
        r@ == open_target_spec(data_dir@, url@),
{
    let u = chars_of(url);
    if starts_with_exec(&u, &chars_of("http://")) || starts_with_exec(&u, &chars_of("https://")) {
        return lit(url);
    }
    match strip_prefix_exec(&u, &chars_of("./")) {
        Some(rest) => {
            let r = string_of(&rest);
            resolve_path(data_dir, r.as_str())
        },
        None => resolve_path(data_dir, url),
    }
}

/// The first URL of a crawl configuration: the first line that, trimmed,
/// opens with `-`, without its dashes and trimmed again; `unknown` when
/// there is none or the configuration could not be read.
pub open spec fn first_url_from(ls: Seq<Seq<char>>) -> Seq<char>
    decreases ls.len(),
{
    if ls.len() == 0 {
        "unknown"@
    } else if starts_with(trim(ls[0]), "-"@) {
        trim(trim(ls[0]).skip(leading_dashes(trim(ls[0])) as int))
    } else {
        first_url_from(ls.drop_first())
    }
}

/// How many `-` open `s`.
pub open spec fn leading_dashes(s: Seq<char>) -> nat
    decreases s.len(),
{
    if s.len() == 0 || s[0] != '-' {
        0
    } else {
        1 + leading_dashes(s.drop_first())
    }
}

pub open spec fn first_config_url(config: Option<Seq<char>>) -> Seq<char> {
    match config {
        Some(text) => first_url_from(lines(text)),
        None => "unknown"@,
    }
}

proof fn lemma_leading_dashes(s: Seq<char>, i: int)
    requires
        0 <= i <= s.len(),
        forall|j: int| 0 <= j < i ==> s[j] == '-',
        i == s.len() || s[i] != '-',
    ensures
        leading_dashes(s) == i,
    decreases i,
{
    if i > 0 {
        lemma_leading_dashes(s.drop_first(), i - 1);
    }
}

fn leading_dash_count(t: &Vec<char>) -> (k: usize)
    ensures
        k == leading_dashes(t@),
        k <= t.len(),
{
    let mut k: usize = 0;
    while k < t.len() && t[k] == '-'
        invariant
            k <= t.len(),
            forall|j: int| 0 <= j < k ==> t@[j] == '-',
        decreases t.len() - k,
    {
        k = k + 1;
    }
    proof {
        lemma_leading_dashes(t@, k as int);
    }
    k
}

fn first_url_exec(config: Option<String>) -> (r: String)
    ensures
        r@ == first_config_url(opt_str(config)),
{
    let ghost cfg = opt_str(config);
    let text = match config {
        Some(t) => t,
        None => {
            return lit("unknown");
        },
    };
    assert(cfg == Some(text@));
    let c = chars_of(text.as_str());
    let ls = lines_exec(&c);
    let ghost lv = ls@.map_values(|w: Vec<char>| w@);
    let mut i: usize = 0;
    assert(lv.skip(0) =~= lv);
    while i < ls.len()
        invariant
            i <= ls.len(),
            lv == ls@.map_values(|w: Vec<char>| w@),
            lv == lines(text@),
            cfg == Some(text@),
            cfg == opt_str(config),
            first_url_from(lv) == first_url_from(lv.skip(i as int)),
        decreases ls.len() - i,
    {
        assert(lv[i as int] == ls@[i as int]@);
        assert(lv.skip(i as int)[0] == lv[i as int]);
        assert(lv.skip(i as int).drop_first() =~= lv.skip(i + 1));
        let t = trim_exec(&ls[i]);
        if t.len() > 0 && t[0] == '-' {
            assert(starts_with(t@, "-"@)) by {
                reveal_strlit("-");
                assert(t@.subrange(0, 1) =~= "-"@);
            }
            let k = leading_dash_count(&t);
            let rest = crate::text::skip_exec(&t, k);
            let url = trim_exec(&rest);
            assert(t@ == trim(lv.skip(i as int)[0]));
            assert(first_url_from(lv.skip(i as int)) == trim(t@.skip(k as int)));
            assert(first_config_url(cfg) == first_url_from(lv));
            return string_of(&url);
        }
        proof {
            reveal_strlit("-");
            if t@.len() > 0 {
                assert(t@.subrange(0, 1)[0] == t@[0]);
            }
            assert(!starts_with(t@, "-"@));
        }
        i = i + 1;
    }
    assert(lv.skip(i as int).len() == 0);
    lit("unknown")
}

/// A character kept in a file name: letters, digits, `-` and `_`; any other
/// becomes `_`.
pub open spec fn safe_char(c: char) -> char {
    if char_is_alphanumeric(c) || c == '-' || c == '_' {
        c
    } else {
        '_'
    }
}

/// The file a pre-crawl result is kept in, named after the first URL of the
/// crawl configuration (`None` when the configuration could not be read).
pub open spec fn pre_crawl_file_name_spec(config: Option<Seq<char>>) -> Seq<char> {
    ".pre_crawl_"@ + safe_name(first_config_url(config)) + ".json"@
}

/// A text with every character a file name does not keep turned into `_`.
pub open spec fn safe_name(s: Seq<char>) -> Seq<char> {
    s.map_values(|c: char| safe_char(c))
}

pub fn pre_crawl_file_name(config: Option<String>) -> (r: String)
    ensures
        r@ == pre_crawl_file_name_spec(opt_str(config)),
{
    let url = first_url_exec(config);
    let u = chars_of(url.as_str());
    let mut out = lit(".pre_crawl_");
    let ghost head = out@;
    let mut i: usize = 0;
    while i < u.len()
        invariant
            i <= u.len(),
            out@ == head + safe_name(u@.take(i as int)),
        decreases u.len() - i,
    {
        let c = u[i];
        let keep = is_alphanumeric(c) || c == '-' || c == '_';
        push_char(&mut out, if keep { c } else { '_' });
        assert(safe_name(u@.take(i + 1)) =~= safe_name(u@.take(i as int)).push(safe_char(c)));
        i = i + 1;
    }
    assert(u@.take(u.len() as int) =~= u@);
    out.append(".json");
    out
}


/// The first known place is one of the candidates and is known to exist.
pub proof fn lemma_first_known(existing: Seq<Seq<char>>, paths: Seq<Seq<char>>)
    ensures
        first_known(existing, paths) matches Some(p) ==> paths.contains(p) && existing.contains(p),
        first_known(existing, paths) is None ==> forall|i: int|
            0 <= i < paths.len() ==> !existing.contains(#[trigger] paths[i]),
    decreases paths.len(),
{
    if paths.len() > 0 {
        let rest = paths.drop_first();
        lemma_first_known(existing, rest);
        if !known(existing, paths[0]) {
            if let Some(p) = first_known(existing, rest) {
                let k = choose|k: int| 0 <= k < rest.len() && rest[k] == p;
                assert(paths[k + 1] == p);
            } else {
                assert forall|i: int| 0 <= i < paths.len() implies !existing.contains(
                    #[trigger] paths[i],
                ) by {
                    if i > 0 {
                        assert(paths[i] == rest[i - 1]);
                    }
                }
            }
        }
    }
}

/// The name a pre-crawl result is kept under holds, between `.pre_crawl_`
/// and `.json`, only letters, digits, `-` and `_`.
pub proof fn lemma_pre_crawl_name_safe(config: Option<Seq<char>>)
    ensures
        forall|i: int|
            0 <= i < safe_name(first_config_url(config)).len() ==> {
                let c = #[trigger] safe_name(first_config_url(config))[i];
                char_is_alphanumeric(c) || c == '-' || c == '_'
            },
{
}


/// Where the crawler script of a checkout lies, from the working directory.
pub fn dev_script_path(cwd: &str) -> (r: String)
    ensures
        r@ == crawler_script_under(dev_root(cwd@)),
{
    let root = dev_project_root(cwd);
    crawler_script_under_exec(root.as_str())
}

/// The places a processed document may lie, in the order they are tried.
pub fn processed_file_candidates(data_dir: &str, output_dir: &str, filename: &str) -> (r: Vec<
    String,
>)
    ensures
        views(r@) == processed_candidates(joined_path(data_dir@, output_dir@), filename@),
{
    let base = resolve_path(data_dir, output_dir);
    processed_candidates_exec(base.as_str(), filename)
}

/// The places the content of a document may lie, in the order they are tried.
pub fn content_file_candidates(data_dir: &str, output_dir: &str, filename: &str) -> (r: Vec<
    String,
>)
    ensures
        views(r@) == content_candidates(joined_path(data_dir@, output_dir@), filename@),
{
    let base = resolve_path(data_dir, output_dir);
    content_candidates_exec(base.as_str(), filename)
}

/// A prebuilt crawler binary found in `src-tauri/binaries`.
pub struct BinaryEntry {
    pub path: String,
    pub name: String,
    pub is_file: bool,
    pub size: u64,
}

/// The interpreter of a checkout's virtual environment.
pub open spec fn venv_python(root: Seq<char>, windows: bool) -> Seq<char> {
    if windows {
        joined_path(joined_path(joined_path(root, ".venv"@), "Scripts"@), "python.exe"@)
    } else {
        joined_path(joined_path(joined_path(root, ".venv"@), "bin"@), "python3"@)
    }
}

pub open spec fn default_python(windows: bool) -> Seq<char> {
    if windows {
        "python.exe"@
    } else {
        "python3"@
    }
}

/// The crawler binary installed beside the application's executable.
pub open spec fn installed_sidecar(exe_dir: Seq<char>, windows: bool) -> Seq<char> {
    joined_path(
        exe_dir,
        if windows {
            "crawler.exe"@
        } else {
            "crawler"@
        },
    )
}

/// A prebuilt binary is used when it is a `crawler-...` file (an `.exe` on
/// Windows) of more than 1000 bytes, which rules out placeholders.
pub open spec fn usable_binary(b: BinaryEntry, windows: bool) -> bool {
    &&& starts_with(b.name@, "crawler-"@)
    &&& b.is_file
    &&& (windows ==> crate::text::ends_with(b.name@, ".exe"@))
    &&& b.size > 1000
}

pub open spec fn first_usable_binary(bins: Seq<BinaryEntry>, windows: bool) -> Option<Seq<char>>
    decreases bins.len(),
{
    if bins.len() == 0 {
        None
    } else if usable_binary(bins[0], windows) {
        Some(bins[0].path@)
    } else {
        first_usable_binary(bins.drop_first(), windows)
    }
}

/// How the crawler is run: in a checkout with its script, the script under
/// the checkout's virtual environment (or the system's Python); else the
/// binary installed beside the executable; else the first usable prebuilt
/// binary; else an error.
pub open spec fn find_crawler_spec(
    windows: bool,
    cwd: Seq<char>,
    exe_dir: Option<Seq<char>>,
    bins: Seq<BinaryEntry>,
    existing: Seq<Seq<char>>,
) -> Result<(Seq<char>, Seq<Seq<char>>), Seq<char>> {
    let root = dev_root(cwd);
    let script = crawler_script_under(root);
    if known(existing, script) {
        let venv = venv_python(root, windows);
        Ok(
            (
                if known(existing, venv) {
                    venv
                } else {
                    default_python(windows)
                },
                seq![script],
            ),
        )
    } else if exe_dir is Some && known(existing, installed_sidecar(exe_dir->0, windows)) {
        Ok((installed_sidecar(exe_dir->0, windows), Seq::empty()))
    } else {
        match first_usable_binary(bins, windows) {
            Some(p) => Ok((p, Seq::empty())),
            None => Err("Crawler not found: no sidecar binary and no python/crawler.py"@),
        }
    }
}

/// The places whose existence decides how the crawler is run: the
/// checkout's script, its virtual environment's interpreter, and (when the
/// executable's directory is known) the installed binary.
pub fn crawler_probe_paths(windows: bool, cwd: &str, exe_dir: &Option<String>) -> (r: Vec<String>)
    ensures
        views(r@) == seq![
            crawler_script_under(dev_root(cwd@)),
            venv_python(dev_root(cwd@), windows),
        ] + match opt_str(*exe_dir) {
            Some(d) => seq![installed_sidecar(d, windows)],
            None => Seq::empty(),
        },
{
    let root = dev_project_root(cwd);
    let script = crawler_script_under_exec(root.as_str());
    let venv = venv_python_exec(root.as_str(), windows);
    let mut r = vec![script, venv];
    let ghost two = views(r@);
    match exe_dir {
        Some(d) => {
            r.push(installed_sidecar_exec(d.as_str(), windows));
            assert(views(r@) =~= two + seq![installed_sidecar(d@, windows)]);
        },
        None => {
            assert(views(r@) =~= two + Seq::<Seq<char>>::empty());
        },
    }
    r
}

fn venv_python_exec(root: &str, windows: bool) -> (r: String)
    ensures
        r@ == venv_python(root@, windows),
{
    let v = join_path(root, ".venv");
    if windows {
        let s = join_path(v.as_str(), "Scripts");
        join_path(s.as_str(), "python.exe")
    } else {
        let b = join_path(v.as_str(), "bin");
        join_path(b.as_str(), "python3")
    }
}

fn installed_sidecar_exec(exe_dir: &str, windows: bool) -> (r: String)
    ensures
        r@ == installed_sidecar(exe_dir@, windows),
{
    if windows {
        join_path(exe_dir, "crawler.exe")
    } else {
        join_path(exe_dir, "crawler")
    }
}

fn usable_binary_exec(b: &BinaryEntry, windows: bool) -> (r: bool)
    ensures
        r == usable_binary(*b, windows),
{
    let n = chars_of(b.name.as_str());
    if !starts_with_exec(&n, &chars_of("crawler-")) || !b.is_file || b.size <= 1000 {
        return false;
    }
    if windows {
        crate::text::ends_with_exec(&n, &chars_of(".exe"))
    } else {
        true
    }
}

/// Decides how the crawler is run (see `find_crawler_spec`); `existing`
/// lists the probed places that exist (the installed binary only when it is
/// a file), `binaries` the entries of `src-tauri/binaries` in directory order.
pub fn find_crawler(
    windows: bool,
    cwd: &str,
    exe_dir: Option<String>,
    binaries: &Vec<BinaryEntry>,
    existing: &Vec<String>,
) -> (r: Result<(String, Vec<String>), String>)
    ensures
        match find_crawler_spec(windows, cwd@, opt_str(exe_dir), binaries@, views(existing@)) {
            Ok((cmd, args)) => r matches Ok(p) && p.0@ == cmd && views(p.1@) == args,
            Err(e) => r matches Err(m) && m@ == e,
        },
{
    let root = dev_project_root(cwd);
    let script = crawler_script_under_exec(root.as_str());
    if known_exec(existing, script.as_str()) {
        let venv = venv_python_exec(root.as_str(), windows);
        let python = if known_exec(existing, venv.as_str()) {
            venv
        } else if windows {
            lit("python.exe")
        } else {
            lit("python3")
        };
        let args = vec![script];
        assert(views(args@) =~= seq![args@[0]@]);
        return Ok((python, args));
    }
    match &exe_dir {
        Some(d) => {
            let side = installed_sidecar_exec(d.as_str(), windows);
            if known_exec(existing, side.as_str()) {
                let none: Vec<String> = Vec::new();
                assert(views(none@) =~= Seq::<Seq<char>>::empty());
                return Ok((side, none));
            }
        },
        None => {},
    }
    let mut i: usize = 0;
    assert(binaries@.skip(0) =~= binaries@);
    let ghost spec_r = find_crawler_spec(
        windows,
        cwd@,
        opt_str(exe_dir),
        binaries@,
        views(existing@),
    );
    assert(spec_r == match first_usable_binary(binaries@, windows) {
        Some(p) => Ok((p, Seq::<Seq<char>>::empty())),
        None => Err("Crawler not found: no sidecar binary and no python/crawler.py"@),
    });
    while i < binaries.len()
        invariant
            i <= binaries.len(),
            spec_r == find_crawler_spec(windows, cwd@, opt_str(exe_dir), binaries@, views(existing@)),
            spec_r == match first_usable_binary(binaries@, windows) {
                Some(p) => Ok((p, Seq::<Seq<char>>::empty())),
                None => Err("Crawler not found: no sidecar binary and no python/crawler.py"@),
            },
            first_usable_binary(binaries@, windows) == first_usable_binary(
                binaries@.skip(i as int),
                windows,
            ),
        decreases binaries.len() - i,
    {
        assert(binaries@.skip(i as int)[0] == binaries@[i as int]);
        assert(binaries@.skip(i as int).drop_first() =~= binaries@.skip(i + 1));
        if usable_binary_exec(&binaries[i], windows) {
            let none: Vec<String> = Vec::new();
            assert(views(none@) =~= Seq::<Seq<char>>::empty());
            return Ok((binaries[i].path.clone(), none));
        }
        i = i + 1;
    }
    assert(binaries@.skip(i as int).len() == 0);
    Err(lit("Crawler not found: no sidecar binary and no python/crawler.py"))
}

} // verus!
