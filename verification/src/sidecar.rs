//! The crawler sidecar of the desktop demo: where its script is found, the
//! YAML configuration handed to it, and how its output becomes a result.
use vstd::prelude::*;
use crate::records::{opt_item_views, opt_view, opt_views, parse_pre_crawl_json, pre_crawl_json};
use crate::text::{
    chars_of, decimal, lines, lines_exec, lit, push_chars, starts_with, starts_with_exec, string_of, trim,
    trim_exec, u64_to_decimal, views,
};

verus! {

/// The outcome of a crawl or pre-crawl run.
pub struct CrawlResult {
    pub success: bool,
    pub new_files: Vec<String>,
    pub updated_files: Vec<String>,
    pub deleted_files: Vec<String>,
    pub message: String,
}

/// The interpreter and the crawler script the sidecar runs.
pub struct CrawlerSidecar {
    pub python_path: String,
    pub crawler_script: String,
}

/// The places, relative to the working directory, where the crawler script is
/// looked for, in order; the last one is the default.
pub open spec fn script_candidates_spec() -> Seq<Seq<char>> {
    seq![
        "../../../python/crawler.py"@,
        "../../python/crawler.py"@,
        "../python/crawler.py"@,
        "python/crawler.py"@,
    ]
}

/// Whether candidate `i` exists, by the flags the caller found on disk.
pub open spec fn flag(exists: Seq<bool>, i: int) -> bool {
    i < exists.len() && exists[i]
}

/// Calls `serde_yaml::to_string` on a list of strings: the YAML document, or
/// the library's error.
#[verifier::external_body]
fn yaml_string_list(v: &Vec<String>) -> (r: Result<String, serde_yaml::Error>)
    ensures
        r matches Ok(s) ==> yaml_of_string_list(views(v@)) == Some(s@),
        r is Err ==> yaml_of_string_list(views(v@)) is None,
{
    serde_yaml::to_string(v)
}

/// What `serde_yaml::to_string` gives for a list of strings: the YAML
/// document, or `None` where it fails.
pub uninterp spec fn yaml_of_string_list(v: Seq<Seq<char>>) -> Option<Seq<char>>;

/// The type of `serde_yaml`'s errors, carried through as it is.
#[verifier::external_type_specification]
#[verifier::external_body]
pub struct ExYamlError(serde_yaml::Error);

/// The lines of `ls`, each indented by four spaces, joined with `'\n'`.
pub open spec fn indented(ls: Seq<Seq<char>>) -> Seq<char>
    decreases ls.len(),
{
    if ls.len() == 0 {
        Seq::empty()
    } else if ls.len() == 1 {
        "    "@ + ls[0]
    } else {
        indented(ls.drop_last()) + "\n"@ + "    "@ + ls.last()
    }
}

/// The YAML `serde_yaml` writes for a list, trimmed; empty where rendering
/// fails.
pub open spec fn yaml_list_text(v: Seq<Seq<char>>) -> Seq<char> {
    match yaml_of_string_list(v) {
        Some(y) => trim(y),
        None => Seq::empty(),
    }
}

/// A list under its key: where the rendered list is a block of `- item`
/// lines, the key, a colon and those lines on the lines below it, each
/// indented by four spaces; otherwise (a flow list such as `[]`, or nothing
/// where rendering failed) the key, `": "` and the text on the same line.
pub open spec fn yaml_list_field(key: Seq<char>, v: Seq<Seq<char>>) -> Seq<char> {
    let t = yaml_list_text(v);
    if starts_with(t, "-"@) {
        key + ":\n"@ + indented(lines(t))
    } else {
        key + ": "@ + t
    }
}

/// The settings of one crawl run. `delay` is the delay in seconds as it is
/// written into the configuration file.
pub struct CrawlerConfig {
    pub urls: Vec<String>,
    pub file_extensions: Vec<String>,
    pub content_format: String,
    pub output_dir: String,
    pub delay: String,
    pub max_depth: u32,
    pub min_year: u32,
}

/// The configuration file handed to the crawler.
pub open spec fn config_yaml(c: CrawlerConfig) -> Seq<char> {
    "crawler:\n"@ + yaml_list_field("  urls"@, views(c.urls@)) + "\n"@ + yaml_list_field(
        "  file_extensions"@,
        views(c.file_extensions@),
    ) + "\n  content_format: "@ + c.content_format@
        + "\n  output_dir: "@ + c.output_dir@ + "\n  delay: "@ + c.delay@ + "\n  max_depth: "@
        + decimal(c.max_depth as nat) + "\n  min_year: "@ + decimal(c.min_year as nat) + "\n"@
}

fn yaml_list_text_exec(v: &Vec<String>) -> (r: Vec<char>)
    ensures
        r@ == yaml_list_text(views(v@)),
{
    match yaml_string_list(v) {
        Ok(s) => {
            let c = chars_of(s.as_str());
            trim_exec(&c)
        },
        Err(_) => Vec::new(),
    }
}

fn indented_exec(ls: &Vec<Vec<char>>) -> (r: String)
    ensures
        r@ == indented(ls@.map_values(|w: Vec<char>| w@)),
{
    let ghost lv = ls@.map_values(|w: Vec<char>| w@);
    let mut out = String::new();
    let mut i: usize = 0;
    while i < ls.len()
        invariant
            i <= ls.len(),
            lv == ls@.map_values(|w: Vec<char>| w@),
            out@ == indented(lv.take(i as int)),
        decreases ls.len() - i,
    {
        assert(lv.take(i + 1).drop_last() =~= lv.take(i as int));
        assert(lv.take(i + 1).last() == ls@[i as int]@);
        let ghost before = out@;
        if i > 0 {
            out.append("\n");
        }
        out.append("    ");
        push_chars(&mut out, &ls[i]);
        proof {
            if i == 0 {
                assert(lv.take(1) =~= seq![ls@[0]@]);
                assert(before =~= Seq::<char>::empty());
            }
        }
        i = i + 1;
    }
    assert(lv.take(ls.len() as int) =~= lv);
    out
}

fn yaml_list_field_exec(key: &str, v: &Vec<String>) -> (r: String)
    ensures
        r@ == yaml_list_field(key@, views(v@)),
{
    let t = yaml_list_text_exec(v);
    let dash = chars_of("-");
    let mut out = String::new();
    out.append(key);
    if starts_with_exec(&t, &dash) {
        out.append(":\n");
        let ls = lines_exec(&t);
        let b = indented_exec(&ls);
        out.append(b.as_str());
    } else {
        out.append(": ");
        push_chars(&mut out, &t);
    }
    assert(out@ =~= yaml_list_field(key@, views(v@)));
    out
}

impl CrawlerSidecar {
    /// The places where the crawler script is looked for.
    pub fn script_candidates() -> (r: Vec<String>)
        ensures
            views(r@) == script_candidates_spec(),
    {
        let r = vec![
            lit("../../../python/crawler.py"),
            lit("../../python/crawler.py"),
            lit("../python/crawler.py"),
            lit("python/crawler.py"),
        ];
        assert(views(r@) =~= script_candidates_spec());
        r
    }

    /// The sidecar for the first candidate script that exists (`exists[i]`
    /// tells whether candidate `i` does), with `python.exe` on Windows and
    /// `python3` elsewhere; an error when none does.
    pub fn new(windows: bool, exists: &Vec<bool>) -> (r: Result<CrawlerSidecar, String>)
        ensures
            r matches Ok(s) ==> s.python_path@ == (if windows {
                "python.exe"@
            } else {
                "python3"@
            }),
            r matches Ok(s) ==> exists|i: int|
                0 <= i < 4 && flag(exists@, i) && s.crawler_script@ == script_candidates_spec()[i]
                    && forall|j: int| 0 <= j < i ==> !flag(exists@, j),
            r is Err <==> forall|i: int| 0 <= i < 4 ==> !flag(exists@, i),
            r matches Err(e) ==> e@ == "爬虫脚本不存在: \"python/crawler.py\""@,
    {
        let python_cmd = if windows {
            lit("python.exe")
        } else {
            lit("python3")
        };
        let candidates = Self::script_candidates();
        let mut i: usize = 0;
        while i < 4
            invariant
                i <= 4,
                python_cmd@ == (if windows {
                    "python.exe"@
                } else {
                    "python3"@
                }),
                views(candidates@) == script_candidates_spec(),
                forall|j: int| 0 <= j < i ==> !flag(exists@, j),
            decreases 4 - i,
        {
            assert(script_candidates_spec().len() == 4);
            assert(views(candidates@).len() == candidates@.len());
            assert(views(candidates@)[i as int] == candidates@[i as int]@);
            if i < exists.len() && exists[i] {
                let script = candidates[i].clone();
                assert(candidates@[i as int]@ == script_candidates_spec()[i as int]);
                return Ok(CrawlerSidecar { python_path: python_cmd, crawler_script: script });
            }
            i = i + 1;
        }
        Err(lit("爬虫脚本不存在: \"python/crawler.py\""))
    }

    /// The configuration file for a run: the URL and extension lists as
    /// `serde_yaml` renders them (a block of `- item` lines under the key, or a
    /// flow list such as `[]` after it; nothing after the key when rendering
    /// fails), the other settings as they are.
    pub fn generate_config_yaml(config: &CrawlerConfig) -> (r: String)
        ensures
            r@ == config_yaml(*config),
    {
        let u = yaml_list_field_exec("  urls", &config.urls);
        let e = yaml_list_field_exec("  file_extensions", &config.file_extensions);
        let md = u64_to_decimal(config.max_depth as u64);
        let my = u64_to_decimal(config.min_year as u64);
        let mut out = String::new();
        out.append("crawler:\n");
        out.append(u.as_str());
        out.append("\n");
        out.append(e.as_str());
        out.append("\n  content_format: ");
        out.append(config.content_format.as_str());
        out.append("\n  output_dir: ");
        out.append(config.output_dir.as_str());
        out.append("\n  delay: ");
        out.append(config.delay.as_str());
        out.append("\n  max_depth: ");
        out.append(md.as_str());
        out.append("\n  min_year: ");
        out.append(my.as_str());
        out.append("\n");
        assert(out@ =~= config_yaml(*config));
        out
    }
}

/// The message of a pre-crawl summary.
pub open spec fn pre_crawl_message(total: nat, max_depth: nat) -> Seq<char> {
    "发现 "@ + decimal(total) + " 个URL，最大深度 "@ + decimal(max_depth)
}

/// The record a pre-crawl prints after its result marker: how many URLs it
/// found, the deepest level it reached, and the URLs.
pub struct PreCrawlResult {
    pub total: usize,
    pub max_depth: u32,
    pub urls: Vec<String>,
}

impl PreCrawlResult {
    /// The record from the numbers as the JSON reader gives them (`u64`), cut
    /// to the widths of the fields as `as` cuts them.
    pub fn from_record(total: u64, max_depth: u64, urls: Vec<String>) -> (r: Self)
        ensures
            r.total == total as usize,
            r.max_depth == max_depth as u32,
            r.urls@ == urls@,
    {
        PreCrawlResult { total: total as usize, max_depth: max_depth as u32, urls }
    }
}

/// The result a pre-crawl record stands for: it succeeds when any URL was
/// found, and lists the URLs as new files.
pub fn pre_crawl_summary(record: PreCrawlResult) -> (r: CrawlResult)
    ensures
        r.success == (record.total > 0),
        r.new_files@ == record.urls@,
        r.updated_files@.len() == 0,
        r.deleted_files@.len() == 0,
        r.message@ == pre_crawl_message(record.total as nat, record.max_depth as nat),
{
    let mut message = String::new();
    message.append("发现 ");
    let t = u64_to_decimal(record.total as u64);
    message.append(t.as_str());
    message.append(" 个URL，最大深度 ");
    let d = u64_to_decimal(record.max_depth as u64);
    message.append(d.as_str());
    assert(message@ =~= pre_crawl_message(record.total as nat, record.max_depth as nat));
    CrawlResult {
        success: record.total > 0,
        new_files: record.urls,
        updated_files: Vec::new(),
        deleted_files: Vec::new(),
        message,
    }
}

/// The strings among the items of a record's array, in order.
pub open spec fn strings_of(s: Seq<Option<Seq<char>>>) -> Seq<Seq<char>>
    decreases s.len(),
{
    if s.len() == 0 {
        Seq::empty()
    } else {
        match s.last() {
            Some(x) => strings_of(s.drop_last()).push(x),
            None => strings_of(s.drop_last()),
        }
    }
}

/// The URLs of a pre-crawl record: the strings of its `urls` array, none
/// when it has no such array.
pub open spec fn url_items(u: Option<Seq<Option<Seq<char>>>>) -> Seq<Seq<char>> {
    match u {
        Some(s) => strings_of(s),
        None => Seq::empty(),
    }
}

/// A count of a record, 0 where it is missing or not an unsigned integer.
pub open spec fn or_zero(o: Option<u64>) -> u64 {
    match o {
        Some(n) => n,
        None => 0,
    }
}

impl PreCrawlResult {
    /// The record from what was read of a pre-crawl's output: the counts
    /// (0 where missing), and the string items of its URL array.
    pub fn from_fields(total: Option<u64>, max_depth: Option<u64>, urls: Option<Vec<Option<String>>>) -> (r: Self)
        ensures
            r.total == or_zero(total) as usize,
            r.max_depth == or_zero(max_depth) as u32,
            views(r.urls@) == url_items(opt_item_views(urls)),
    {
        let mut out: Vec<String> = Vec::new();
        match urls {
            Some(items) => {
                let ghost iv = opt_views(items@);
                let mut i: usize = 0;
                while i < items.len()
                    invariant
                        i <= items.len(),
                        iv == opt_views(items@),
                        views(out@) == strings_of(iv.take(i as int)),
                    decreases items.len() - i,
                {
                    assert(iv.take(i + 1).drop_last() =~= iv.take(i as int));
                    assert(iv.take(i + 1).last() == opt_view(items@[i as int]));
                    let ghost before = views(out@);
                    match &items[i] {
                        Some(u) => {
                            out.push(u.clone());
                            assert(views(out@) =~= before.push(u@));
                        },
                        None => {},
                    }
                    i = i + 1;
                }
                assert(iv.take(items.len() as int) =~= iv);
            },
            None => {},
        }
        let t: u64 = match total {
            Some(n) => n,
            None => 0,
        };
        let d: u64 = match max_depth {
            Some(n) => n,
            None => 0,
        };
        PreCrawlResult::from_record(t, d, out)
    }
}

/// `c` is the result a pre-crawl record with these fields stands for.
pub open spec fn is_pre_crawl_result(c: CrawlResult, total: u64, max_depth: u64, urls: Seq<Seq<char>>) -> bool {
    &&& c.success == ((total as usize) > 0)
    &&& views(c.new_files@) == urls
    &&& c.updated_files@.len() == 0
    &&& c.deleted_files@.len() == 0
    &&& c.message@ == pre_crawl_message((total as usize) as nat, (max_depth as u32) as nat)
}

/// What a pre-crawl's result record comes to: the summary of the record
/// read from it, or, where it is not JSON, an error carrying the parser's
/// message.
pub fn pre_crawl_outcome(record: &str) -> (r: Result<CrawlResult, String>)
    ensures
        (match pre_crawl_json(record@) {
            Ok((t, d, u)) => r matches Ok(c) && is_pre_crawl_result(
                c,
                or_zero(t),
                or_zero(d),
                url_items(u),
            ),
            Err(e) => r matches Err(m) && m@ == "解析预爬虫输出失败: "@ + e,
        }),
{
    match parse_pre_crawl_json(record) {
        Ok((t, d, u)) => {
            let rec = PreCrawlResult::from_fields(t, d, u);
            let c = pre_crawl_summary(rec);
            Ok(c)
        },
        Err(e) => {
            let mut m = lit("解析预爬虫输出失败: ");
            m.append(e.as_str());
            Err(m)
        },
    }
}

/// The lines a sidecar run printed: those before the result marker go to the
/// progress callback, those after it make up the result record.
pub struct SidecarOutput {
    pub in_result: bool,
    pub result_json: String,
}

impl SidecarOutput {
    pub fn new() -> (r: Self)
        ensures
            !r.in_result,
            r.result_json@.len() == 0,
    {
        SidecarOutput { in_result: false, result_json: String::new() }
    }

    /// Reads one line; returns the line when it is to be passed to the progress callback.
    pub fn feed_line(&mut self, line: &str) -> (r: Option<String>)
        ensures
            crate::crawl_output::is_result_marker(line@) ==> {
                &&& final(self).in_result
                &&& final(self).result_json == old(self).result_json
                &&& r is None
            },
            !crate::crawl_output::is_result_marker(line@) && old(self).in_result ==> {
                &&& final(self).in_result
                &&& final(self).result_json@ == old(self).result_json@ + line@ + "\n"@
                &&& r is None
            },
            !crate::crawl_output::is_result_marker(line@) && !old(self).in_result ==> {
                &&& !final(self).in_result
                &&& final(self).result_json == old(self).result_json
                &&& r matches Some(l) && l@ == line@
            },
    {
        let l = chars_of(line);
        let marker = chars_of("=== RESULT ===");
        if crate::text::contains_exec(&l, &marker) {
            self.in_result = true;
            return None;
        }
        if self.in_result {
            self.result_json.append(line);
            self.result_json.append("\n");
            return None;
        }
        Some(string_of(&l))
    }
}

/// The integer as `i64`'s `Display` writes it.
pub open spec fn int_decimal(i: int) -> Seq<char> {
    if i < 0 {
        "-"@ + decimal((-i) as nat)
    } else {
        decimal(i as nat)
    }
}

/// An exit code as `Option<i32>`'s `Debug` writes it.
pub open spec fn exit_code_debug(code: Option<i32>) -> Seq<char> {
    match code {
        Some(c) => "Some("@ + int_decimal(c as int) + ")"@,
        None => "None"@,
    }
}

fn i32_to_decimal(c: i32) -> (r: String)
    ensures
        r@ == int_decimal(c as int),
{
    let mut s = String::new();
    if c < 0 {
        s.append("-");
        let m = (0 - (c as i64)) as u64;
        let d = u64_to_decimal(m);
        s.append(d.as_str());
    } else {
        let d = u64_to_decimal(c as u64);
        s.append(d.as_str());
    }
    assert(s@ =~= int_decimal(c as int));
    s
}

/// What a run without a result record ends in: an error carrying the exit
/// code when the process failed, otherwise an unsuccessful result.
pub fn run_without_result(pre_crawl: bool, exit_success: bool, exit_code: Option<i32>) -> (r: Result<
    CrawlResult,
    String,
>)
    ensures
        !exit_success ==> (r matches Err(e) && e@ == (if pre_crawl {
            "预爬虫执行失败，返回码: "@
        } else {
            "爬虫执行失败，返回码: "@
        }) + exit_code_debug(exit_code)),
        exit_success ==> (r matches Ok(c) && !c.success && c.new_files@.len() == 0
            && c.updated_files@.len() == 0 && c.deleted_files@.len() == 0 && c.message@ == (
        if pre_crawl {
            "未能解析预爬虫结果"@
        } else {
            "未能解析爬虫结果"@
        })),
{
    if !exit_success {
        let mut e = if pre_crawl {
            lit("预爬虫执行失败，返回码: ")
        } else {
            lit("爬虫执行失败，返回码: ")
        };
        let ghost head = e@;
        match exit_code {
            Some(c) => {
                e.append("Some(");
                let d = i32_to_decimal(c);
                e.append(d.as_str());
                e.append(")");
            },
            None => {
                e.append("None");
            },
        }
        assert(e@ =~= head + exit_code_debug(exit_code));
        return Err(e);
    }
    let message = if pre_crawl {
        lit("未能解析预爬虫结果")
    } else {
        lit("未能解析爬虫结果")
    };
    Ok(
        CrawlResult {
            success: false,
            new_files: Vec::new(),
            updated_files: Vec::new(),
            deleted_files: Vec::new(),
            message,
        },
    )
}

} // verus!
