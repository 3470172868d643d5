//! The state of the desktop crawler front end and the actions on it: the
//! crawl form, the crawled sites and files, the log, the counters.
use vstd::prelude::*;
use crate::sidecar::{CrawlerConfig, CrawlerSidecar};
use crate::text::{
    chars_of, contains, contains_exec, decimal, lit, parse_u32, parse_u32_exec, split_once,
    split_once_exec, split_whitespace, starts_with, starts_with_exec, str_eq, string_of, trim,
    trim_exec, u64_to_decimal, views, words,
};

verus! {

/// What the front end is running.
#[derive(Clone, Copy, PartialEq, Eq, Structural)]
pub enum RunMode {
    Idle,
    PreCrawl,
    Crawling,
}

/// The colour scheme chosen by the user.
#[derive(Clone, Copy, PartialEq, Eq, Structural)]
pub enum ThemeMode {
    Dark,
    Light,
    Auto,
}

/// A colour as red, green, blue and (premultiplied) alpha.
#[derive(Clone, Copy, PartialEq, Eq, Structural)]
pub struct Rgba {
    pub r: u8,
    pub g: u8,
    pub b: u8,
    pub a: u8,
}

/// An opaque colour.
pub open spec fn rgb(r: u8, g: u8, b: u8) -> Rgba {
    Rgba { r, g, b, a: 255 }
}

pub open spec fn rgba(r: u8, g: u8, b: u8, a: u8) -> Rgba {
    Rgba { r, g, b, a }
}

/// The colours of the interface.
#[derive(Clone, Copy, PartialEq, Eq, Structural)]
pub struct ThemePalette {
    pub bg: Rgba,
    pub surface: Rgba,
    pub surface_alt: Rgba,
    pub glass: Rgba,
    pub border: Rgba,
    pub text: Rgba,
    pub muted: Rgba,
    pub primary: Rgba,
    pub success: Rgba,
    pub warning: Rgba,
    pub danger: Rgba,
    pub input_bg: Rgba,
    pub input_focus: Rgba,
    pub hover: Rgba,
    pub selected: Rgba,
    pub resizer: Rgba,
}

pub open spec fn dark_palette() -> ThemePalette {
    ThemePalette {
        bg: rgb(15, 23, 42),
        surface: rgb(30, 41, 59),
        surface_alt: rgb(51, 65, 85),
        glass: rgba(100, 116, 139, 128),
        border: rgb(71, 85, 105),
        text: rgb(226, 232, 240),
        muted: rgb(148, 163, 184),
        primary: rgb(59, 130, 246),
        success: rgb(34, 197, 94),
        warning: rgb(251, 146, 60),
        danger: rgb(239, 68, 68),
        input_bg: rgb(30, 41, 59),
        input_focus: rgb(51, 65, 85),
        hover: rgb(71, 85, 105),
        selected: rgba(59, 130, 246, 77),
        resizer: rgb(100, 116, 139),
    }
}

pub open spec fn light_palette() -> ThemePalette {
    ThemePalette {
        bg: rgb(248, 250, 252),
        surface: rgb(241, 245, 249),
        surface_alt: rgb(226, 232, 240),
        glass: rgba(203, 213, 225, 128),
        border: rgb(203, 213, 225),
        text: rgb(15, 23, 42),
        muted: rgb(100, 116, 139),
        primary: rgb(37, 99, 235),
        success: rgb(22, 163, 74),
        warning: rgb(234, 88, 12),
        danger: rgb(220, 38, 38),
        input_bg: rgb(241, 245, 249),
        input_focus: rgb(226, 232, 240),
        hover: rgb(203, 213, 225),
        selected: rgba(37, 99, 235, 77),
        resizer: rgb(203, 213, 225),
    }
}

fn c(r: u8, g: u8, b: u8) -> (x: Rgba)
    ensures
        x == rgb(r, g, b),
{
    Rgba { r, g, b, a: 255 }
}

fn ca(r: u8, g: u8, b: u8, a: u8) -> (x: Rgba)
    ensures
        x == rgba(r, g, b, a),
{
    Rgba { r, g, b, a }
}

impl ThemePalette {
    pub fn dark() -> (p: Self)
        ensures
            p == dark_palette(),
    {
        ThemePalette {
            bg: c(15, 23, 42),
            surface: c(30, 41, 59),
            surface_alt: c(51, 65, 85),
            glass: ca(100, 116, 139, 128),
            border: c(71, 85, 105),
            text: c(226, 232, 240),
            muted: c(148, 163, 184),
            primary: c(59, 130, 246),
            success: c(34, 197, 94),
            warning: c(251, 146, 60),
            danger: c(239, 68, 68),
            input_bg: c(30, 41, 59),
            input_focus: c(51, 65, 85),
            hover: c(71, 85, 105),
            selected: ca(59, 130, 246, 77),
            resizer: c(100, 116, 139),
        }
    }

    pub fn light() -> (p: Self)
        ensures
            p == light_palette(),
    {
        ThemePalette {
            bg: c(248, 250, 252),
            surface: c(241, 245, 249),
            surface_alt: c(226, 232, 240),
            glass: ca(203, 213, 225, 128),
            border: c(203, 213, 225),
            text: c(15, 23, 42),
            muted: c(100, 116, 139),
            primary: c(37, 99, 235),
            success: c(22, 163, 74),
            warning: c(234, 88, 12),
            danger: c(220, 38, 38),
            input_bg: c(241, 245, 249),
            input_focus: c(226, 232, 240),
            hover: c(203, 213, 225),
            selected: ca(37, 99, 235, 77),
            resizer: c(203, 213, 225),
        }
    }

    /// The palette for a mode; `Auto` follows whether the system is in dark mode.
    pub fn get_palette(mode: ThemeMode, system_dark: bool) -> (p: Self)
        ensures
            p == (match mode {
                ThemeMode::Dark => dark_palette(),
                ThemeMode::Light => light_palette(),
                ThemeMode::Auto => if system_dark {
                    dark_palette()
                } else {
                    light_palette()
                },
            }),
    {
        match mode {
            ThemeMode::Dark => Self::dark(),
            ThemeMode::Light => Self::light(),
            ThemeMode::Auto => if system_dark {
                Self::dark()
            } else {
                Self::light()
            },
        }
    }
}

/// A crawled file: its name (`site/page`), its status and its source URL.
pub type FileEntry = (String, String, String);

/// The file belongs to the site: its name starts with `site/`.
pub open spec fn in_site(f: FileEntry, site: Seq<char>) -> bool {
    starts_with(f.0@, site + "/"@)
}

/// The files not belonging to `site`, in order.
pub open spec fn files_outside(files: Seq<FileEntry>, site: Seq<char>) -> Seq<FileEntry>
    decreases files.len(),
{
    if files.len() == 0 {
        Seq::empty()
    } else {
        let r = files_outside(files.drop_last(), site);
        if in_site(files.last(), site) {
            r
        } else {
            r.push(files.last())
        }
    }
}

/// The files shown for the selected site (all files when none is selected), in order.
pub open spec fn files_shown(files: Seq<FileEntry>, active: Option<Seq<char>>) -> Seq<FileEntry>
    decreases files.len(),
{
    if files.len() == 0 {
        Seq::empty()
    } else {
        let r = files_shown(files.drop_last(), active);
        if (match active {
            Some(site) => in_site(files.last(), site),
            None => true,
        }) {
            r.push(files.last())
        } else {
            r
        }
    }
}

/// Where a status sorts: new, updated, unchanged, error, then anything else.
pub open spec fn status_rank(status: Seq<char>) -> nat {
    if status == "new"@ {
        0
    } else if status == "updated"@ {
        1
    } else if status == "unchanged"@ {
        2
    } else if status == "error"@ {
        3
    } else {
        9
    }
}

/// The files of rank `k`, in order.
pub open spec fn files_of_rank(files: Seq<FileEntry>, k: nat) -> Seq<FileEntry>
    decreases files.len(),
{
    if files.len() == 0 {
        Seq::empty()
    } else {
        let r = files_of_rank(files.drop_last(), k);
        if status_rank(files.last().1@) == k {
            r.push(files.last())
        } else {
            r
        }
    }
}

/// The files stably sorted by status rank.
pub open spec fn sorted_by_status(files: Seq<FileEntry>) -> Seq<FileEntry> {
    files_of_rank(files, 0) + files_of_rank(files, 1) + files_of_rank(files, 2) + files_of_rank(
        files,
        3,
    ) + files_of_rank(files, 9)
}

/// The sites other than `site`, in order.
pub open spec fn sites_without(sites: Seq<(String, usize)>, site: Seq<char>) -> Seq<(String, usize)>
    decreases sites.len(),
{
    if sites.len() == 0 {
        Seq::empty()
    } else {
        let r = sites_without(sites.drop_last(), site);
        if sites.last().0@ == site {
            r
        } else {
            r.push(sites.last())
        }
    }
}

/// The file count of the first site named `site`, 0 when there is none.
pub open spec fn site_count(sites: Seq<(String, usize)>, site: Seq<char>) -> nat
    decreases sites.len(),
{
    if sites.len() == 0 {
        0
    } else if sites[0].0@ == site {
        sites[0].1 as nat
    } else {
        site_count(sites.drop_first(), site)
    }
}

/// The enabled extensions, in order.
pub open spec fn enabled_exts(exts: Seq<(String, bool)>) -> Seq<Seq<char>>
    decreases exts.len(),
{
    if exts.len() == 0 {
        Seq::empty()
    } else {
        let r = enabled_exts(exts.drop_last());
        if exts.last().1 {
            r.push(exts.last().0@)
        } else {
            r
        }
    }
}

/// The sequences joined with `,`.
pub open spec fn join_commas(v: Seq<Seq<char>>) -> Seq<char>
    decreases v.len(),
{
    if v.len() == 0 {
        Seq::empty()
    } else if v.len() == 1 {
        v[0]
    } else {
        join_commas(v.drop_last()) + ","@ + v.last()
    }
}

/// The leading number of a form field such as `2 层`, or `default` when there is none.
pub open spec fn leading_number(s: Seq<char>, default: u32) -> u32 {
    let ws = words(trim(s));
    if ws.len() > 0 {
        match parse_u32(ws[0]) {
            Some(v) => v,
            None => default,
        }
    } else {
        default
    }
}

/// The label of a file status in the file list.
pub open spec fn status_label(status: Seq<char>) -> Seq<char> {
    if status == "new"@ {
        "新增"@
    } else if status == "updated"@ {
        "更新"@
    } else {
        "未变"@
    }
}

/// The preview text of a selected file.
pub open spec fn file_preview(name: Seq<char>, label: Seq<char>, url: Seq<char>) -> Seq<char> {
    "# "@ + name + "\n\n来源状态："@ + label + "\n来源链接："@ + url + "\n\n这是 "@ + name
        + " 的预览内容。\n\n- 采集时间：2026-04-09\n- 内容格式：Markdown\n- 抽取状态：已完成\n\n| 字段 | 值 |\n| --- | --- |\n| 标题 | "@
        + name + " |\n| 分类 | 政策通知 |\n| 标签 | RAG / 爬虫 / 文档 |\n"@
}

pub open spec fn preview_hint() -> Seq<char> {
    "单击左侧文件即可预览内容"@
}

fn clone_entry(f: &FileEntry) -> (r: FileEntry)
    ensures
        r == *f,
{
    (f.0.clone(), f.1.clone(), f.2.clone())
}

fn in_site_exec(f: &FileEntry, site: &str) -> (r: bool)
    ensures
        r == in_site(*f, site@),
{
    let mut prefix = String::new();
    prefix.append(site);
    prefix.append("/");
    let name = chars_of(f.0.as_str());
    let p = chars_of(prefix.as_str());
    assert(p@ =~= site@ + "/"@);
    starts_with_exec(&name, &p)
}

fn status_rank_exec(status: &String) -> (r: u64)
    ensures
        r == status_rank(status@),
{
    if str_eq(status.as_str(), "new") {
        0
    } else if str_eq(status.as_str(), "updated") {
        1
    } else if str_eq(status.as_str(), "unchanged") {
        2
    } else if str_eq(status.as_str(), "error") {
        3
    } else {
        9
    }
}

/// The log line that reports the settings of a run.
pub open spec fn config_log_line(
    exts: Seq<(String, bool)>,
    max_depth: Seq<char>,
    delay_text: Seq<char>,
) -> Seq<char> {
    "[*] 配置: "@ + join_commas(enabled_exts(exts)) + " 文件类型, max_depth="@ + decimal(
        leading_number(max_depth, 1) as nat,
    ) + ", delay="@ + delay_text + "s"@
}

/// The log line written when a run is asked for and no crawler is available.
pub open spec fn crawler_missing_line() -> Seq<char> {
    "[ERROR] 爬虫不可用，请检查 Python 环境"@
}

/// The name a file is listed under: the part after the first `/`, or the
/// whole name when it has none.
pub open spec fn display_name(name: Seq<char>) -> Seq<char> {
    match split_once(name, "/"@) {
        Some(p) => p.1,
        None => name,
    }
}

fn leading_number_exec(s: &str, default: u32) -> (r: u32)
    ensures
        r == leading_number(s@, default),
{
    let c = chars_of(s);
    let t = trim_exec(&c);
    let ws = split_whitespace(&t);
    if ws.len() > 0 {
        assert(ws@.map_values(|w: Vec<char>| w@)[0] == ws@[0]@);
        match parse_u32_exec(&ws[0]) {
            Some(v) => v,
            None => default,
        }
    } else {
        default
    }
}

fn join_commas_exec(v: &Vec<String>) -> (r: String)
    ensures
        r@ == join_commas(views(v@)),
{
    let mut out = String::new();
    let mut i: usize = 0;
    while i < v.len()
        invariant
            i <= v.len(),
            out@ == join_commas(views(v@.take(i as int))),
        decreases v.len() - i,
    {
        assert(views(v@.take(i + 1)).drop_last() =~= views(v@.take(i as int)));
        assert(views(v@.take(i + 1)).last() == v@[i as int]@);
        if i > 0 {
            out.append(",");
        } else {
            assert(views(v@.take(1)) =~= seq![v@[0]@]);
        }
        out.append(v[i].as_str());
        i = i + 1;
    }
    assert(v@.take(v.len() as int) =~= v@);
    out
}

/// The name a file is listed under: the part after the first `/`, or the
/// whole name when it has none.
pub fn file_display_name(name: &str) -> (r: String)
    ensures
        r@ == display_name(name@),
{
    let c = chars_of(name);
    let slash = chars_of("/");
    match split_once_exec(&c, &slash) {
        Some(p) => string_of(&p.1),
        None => string_of(&c),
    }
}

/// The label of a file status in the file list.
pub fn file_status_label(status: &str) -> (r: String)
    ensures
        r@ == status_label(status@),
{
    if str_eq(status, "new") {
        lit("新增")
    } else if str_eq(status, "updated") {
        lit("更新")
    } else {
        lit("未变")
    }
}

fn files_outside_exec(files: &Vec<FileEntry>, site: &str) -> (r: Vec<FileEntry>)
    ensures
        r@ == files_outside(files@, site@),
{
    let mut out: Vec<FileEntry> = Vec::new();
    let mut i: usize = 0;
    while i < files.len()
        invariant
            i <= files.len(),
            out@ == files_outside(files@.take(i as int), site@),
        decreases files.len() - i,
    {
        assert(files@.take(i + 1).drop_last() =~= files@.take(i as int));
        if !in_site_exec(&files[i], site) {
            out.push(clone_entry(&files[i]));
        }
        i = i + 1;
    }
    assert(files@.take(files.len() as int) =~= files@);
    out
}

fn clone_site(x: &(String, usize)) -> (r: (String, usize))
    ensures
        r == *x,
{
    (x.0.clone(), x.1)
}

fn sites_without_exec(sites: &Vec<(String, usize)>, site: &str) -> (r: Vec<(String, usize)>)
    ensures
        r@ == sites_without(sites@, site@),
{
    let mut out: Vec<(String, usize)> = Vec::new();
    let mut i: usize = 0;
    while i < sites.len()
        invariant
            i <= sites.len(),
            out@ == sites_without(sites@.take(i as int), site@),
        decreases sites.len() - i,
    {
        assert(sites@.take(i + 1).drop_last() =~= sites@.take(i as int));
        if !str_eq(sites[i].0.as_str(), site) {
            out.push(clone_site(&sites[i]));
        }
        i = i + 1;
    }
    assert(sites@.take(sites.len() as int) =~= sites@);
    out
}

/// The state of the crawler front end. Progress is kept in thousandths.
pub struct DPCrawlerDemo {
    pub urls: String,
    pub extensions: Vec<(String, bool)>,
    pub output_dir: String,
    pub content_format: String,
    pub theme_mode: ThemeMode,
    pub delay: String,
    pub max_depth: String,
    pub min_year: String,
    pub sites: Vec<(String, usize)>,
    pub active_site: Option<String>,
    pub active_tab: usize,
    pub logs: String,
    pub files: Vec<FileEntry>,
    pub selected_file: String,
    pub preview: String,
    pub is_running: bool,
    pub run_mode: RunMode,
    pub task_progress_permille: u32,
    pub progress_permille: u32,
    pub progress_text: String,
    pub status_text: String,
    pub status_active: bool,
    pub total_count: usize,
    pub new_count: usize,
    pub updated_count: usize,
    pub unchanged_count: usize,
    pub error_count: usize,
    pub crawler: Option<CrawlerSidecar>,
}

/// The view of an optional string.
pub open spec fn opt_view(o: Option<String>) -> Option<Seq<char>> {
    match o {
        Some(s) => Some(s@),
        None => None,
    }
}

impl DPCrawlerDemo {
    /// The form and demo content the front end starts with.
    pub fn new(crawler: Option<CrawlerSidecar>) -> (d: Self)
        ensures
            d.urls@ == "https://www.example.gov.cn"@,
            d.extensions@.len() == 8,
            forall|i: int| 0 <= i < 8 ==> (#[trigger] d.extensions@[i]).1,
            d.extensions@[0].0@ == ".pdf"@ && d.extensions@[1].0@ == ".doc"@
                && d.extensions@[2].0@ == ".docx"@ && d.extensions@[3].0@ == ".xls"@
                && d.extensions@[4].0@ == ".xlsx"@ && d.extensions@[5].0@ == ".ppt"@
                && d.extensions@[6].0@ == ".pptx"@ && d.extensions@[7].0@ == ".csv"@,
            d.output_dir@ == "./output"@,
            d.content_format@ == "markdown"@,
            d.theme_mode == ThemeMode::Auto,
            d.delay@ == "500ms"@,
            d.max_depth@ == "1 层"@,
            d.min_year@ == "2025 年"@,
            d.sites@.len() == 2,
            d.sites@[0].0@ == "www.example.gov.cn"@ && d.sites@[0].1 == 128,
            d.sites@[1].0@ == "hrss.sz.gov.cn"@ && d.sites@[1].1 == 508,
            d.active_site is None,
            d.active_tab == 0,
            d.logs@ == "[20:16:00] DPCrawler 已就绪\n[20:16:01] 配置已加载\n[20:16:02] 等待开始爬取...\n"@,
            d.files@.len() == 3,
            d.files@[0].0@ == "www.example.gov.cn/政策通知_2025"@ && d.files@[0].1@ == "new"@
                && d.files@[0].2@ == "https://example.gov.cn/notice1"@,
            d.files@[1].0@ == "www.example.gov.cn/考试安排"@ && d.files@[1].1@ == "updated"@
                && d.files@[1].2@ == "https://example.gov.cn/exam"@,
            d.files@[2].0@ == "hrss.sz.gov.cn/招生简章"@ && d.files@[2].1@ == "unchanged"@
                && d.files@[2].2@ == "https://example.edu.cn/admission"@,
            d.selected_file@.len() == 0,
            d.preview@ == preview_hint(),
            !d.is_running,
            d.run_mode == RunMode::Idle,
            d.task_progress_permille == 0,
            d.progress_permille == 0,
            d.progress_text@ == "准备就绪"@,
            d.status_text@ == "就绪"@,
            !d.status_active,
            d.total_count == 0 && d.new_count == 0 && d.updated_count == 0 && d.unchanged_count
                == 0 && d.error_count == 0,
            d.crawler == crawler,
    {
        let extensions = vec![
            (lit(".pdf"), true),
            (lit(".doc"), true),
            (lit(".docx"), true),
            (lit(".xls"), true),
            (lit(".xlsx"), true),
            (lit(".ppt"), true),
            (lit(".pptx"), true),
            (lit(".csv"), true),
        ];
        let sites = vec![(lit("www.example.gov.cn"), 128), (lit("hrss.sz.gov.cn"), 508)];
        let files = vec![
            (
                lit("www.example.gov.cn/政策通知_2025"),
                lit("new"),
                lit("https://example.gov.cn/notice1"),
            ),
            (lit("www.example.gov.cn/考试安排"), lit("updated"), lit("https://example.gov.cn/exam")),
            (
                lit("hrss.sz.gov.cn/招生简章"),
                lit("unchanged"),
                lit("https://example.edu.cn/admission"),
            ),
        ];
        DPCrawlerDemo {
            urls: lit("https://www.example.gov.cn"),
            extensions,
            output_dir: lit("./output"),
            content_format: lit("markdown"),
            theme_mode: ThemeMode::Auto,
            delay: lit("500ms"),
            max_depth: lit("1 层"),
            min_year: lit("2025 年"),
            sites,
            active_site: None,
            active_tab: 0,
            logs: lit(
                "[20:16:00] DPCrawler 已就绪\n[20:16:01] 配置已加载\n[20:16:02] 等待开始爬取...\n",
            ),
            files,
            selected_file: String::new(),
            preview: lit("单击左侧文件即可预览内容"),
            is_running: false,
            run_mode: RunMode::Idle,
            task_progress_permille: 0,
            progress_permille: 0,
            progress_text: lit("准备就绪"),
            status_text: lit("就绪"),
            status_active: false,
            total_count: 0,
            new_count: 0,
            updated_count: 0,
            unchanged_count: 0,
            error_count: 0,
            crawler,
        }
    }

    /// Adds a line to the log.
    pub fn append_log(&mut self, line: &str)
        ensures
            final(self).logs@ == old(self).logs@ + line@ + "\n"@,
            *final(self) == (DPCrawlerDemo { logs: final(self).logs, ..*old(self) }),
    {
        self.logs.append(line);
        self.logs.append("\n");
    }

    /// The files of the selected site (all files when none is selected), new
    /// ones first, then updated, unchanged and failed ones, each group in order.
    pub fn visible_files(&self) -> (r: Vec<FileEntry>)
        ensures
            r@ == sorted_by_status(files_shown(self.files@, opt_view(self.active_site))),
    {
        let ghost active = opt_view(self.active_site);
        let mut shown: Vec<FileEntry> = Vec::new();
        let mut i: usize = 0;
        while i < self.files.len()
            invariant
                i <= self.files.len(),
                active == opt_view(self.active_site),
                shown@ == files_shown(self.files@.take(i as int), active),
            decreases self.files.len() - i,
        {
            assert(self.files@.take(i + 1).drop_last() =~= self.files@.take(i as int));
            let keep = match &self.active_site {
                Some(site) => in_site_exec(&self.files[i], site.as_str()),
                None => true,
            };
            if keep {
                shown.push(clone_entry(&self.files[i]));
            }
            i = i + 1;
        }
        assert(self.files@.take(self.files.len() as int) =~= self.files@);
        let ghost sv = shown@;
        let mut out: Vec<FileEntry> = Vec::new();
        let ranks: [u64; 5] = [0, 1, 2, 3, 9];
        let mut k: usize = 0;
        while k < 5
            invariant
                k <= 5,
                sv == shown@,
                ranks@ == seq![0u64, 1, 2, 3, 9],
                out@ == (if k == 0 {
                    Seq::empty()
                } else if k == 1 {
                    files_of_rank(sv, 0)
                } else if k == 2 {
                    files_of_rank(sv, 0) + files_of_rank(sv, 1)
                } else if k == 3 {
                    files_of_rank(sv, 0) + files_of_rank(sv, 1) + files_of_rank(sv, 2)
                } else if k == 4 {
                    files_of_rank(sv, 0) + files_of_rank(sv, 1) + files_of_rank(sv, 2)
                        + files_of_rank(sv, 3)
                } else {
                    sorted_by_status(sv)
                }),
            decreases 5 - k,
        {
            let rank = ranks[k];
            let ghost before = out@;
            let mut j: usize = 0;
            while j < shown.len()
                invariant
                    j <= shown.len(),
                    sv == shown@,
                    out@ == before + files_of_rank(sv.take(j as int), rank as nat),
                decreases shown.len() - j,
            {
                assert(sv.take(j + 1).drop_last() =~= sv.take(j as int));
                if status_rank_exec(&shown[j].1) == rank {
                    out.push(clone_entry(&shown[j]));
                }
                j = j + 1;
            }
            assert(sv.take(shown.len() as int) =~= sv);
            k = k + 1;
        }
        out
    }

    /// Loads the settings remembered for a site into the form and shows its file count.
    pub fn apply_active_site_to_form(&mut self, site_name: &str)
        ensures
            opt_view(final(self).active_site) == Some(site_name@),
            final(self).urls@ == "https://"@ + site_name@,
            final(self).delay@ == (if contains(site_name@, "hrss"@) {
                "300ms"@
            } else {
                "500ms"@
            }),
            final(self).max_depth@ == (if contains(site_name@, "hrss"@) {
                "2 层"@
            } else {
                "1 层"@
            }),
            final(self).min_year@ == (if contains(site_name@, "hrss"@) {
                "2024 年"@
            } else {
                "2025 年"@
            }),
            final(self).progress_permille == 1000,
            final(self).progress_text@ == site_name@ + ": "@ + decimal(
                site_count(old(self).sites@, site_name@),
            ) + " 个文件"@,
            final(self).total_count == site_count(old(self).sites@, site_name@),
            final(self).new_count == 0,
            final(self).updated_count == 0,
            final(self).unchanged_count == site_count(old(self).sites@, site_name@),
            final(self).error_count == 0,
            *final(self) == (DPCrawlerDemo {
                active_site: final(self).active_site,
                urls: final(self).urls,
                delay: final(self).delay,
                max_depth: final(self).max_depth,
                min_year: final(self).min_year,
                progress_permille: final(self).progress_permille,
                progress_text: final(self).progress_text,
                total_count: final(self).total_count,
                new_count: final(self).new_count,
                updated_count: final(self).updated_count,
                unchanged_count: final(self).unchanged_count,
                error_count: final(self).error_count,
                ..*old(self)
            }),
    {
        let name = chars_of(site_name);
        let hrss = contains_exec(&name, &chars_of("hrss"));
        self.active_site = Some(string_of(&name));
        let mut urls = lit("https://");
        urls.append(site_name);
        self.urls = urls;
        self.delay = if hrss {
            lit("300ms")
        } else {
            lit("500ms")
        };
        self.max_depth = if hrss {
            lit("2 层")
        } else {
            lit("1 层")
        };
        self.min_year = if hrss {
            lit("2024 年")
        } else {
            lit("2025 年")
        };
        self.progress_permille = 1000;
        let mut count: usize = 0;
        let mut found = false;
        let mut i: usize = 0;
        assert(self.sites@.skip(0) =~= self.sites@);
        while i < self.sites.len()
            invariant
                i <= self.sites.len(),
                found ==> count == site_count(self.sites@, site_name@),
                !found ==> count == 0 && site_count(self.sites@, site_name@) == site_count(
                    self.sites@.skip(i as int),
                    site_name@,
                ),
            decreases self.sites.len() - i,
        {
            assert(self.sites@.skip(i as int).drop_first() =~= self.sites@.skip(i + 1));
            if !found && str_eq(self.sites[i].0.as_str(), site_name) {
                count = self.sites[i].1;
                found = true;
            }
            i = i + 1;
        }
        proof {
            if !found {
                assert(self.sites@.skip(i as int).len() == 0);
            }
        }
        let mut text = String::new();
        text.append(site_name);
        text.append(": ");
        let digits = u64_to_decimal(count as u64);
        text.append(digits.as_str());
        text.append(" 个文件");
        self.progress_text = text;
        self.total_count = count;
        self.new_count = 0;
        self.updated_count = 0;
        self.unchanged_count = count;
        self.error_count = 0;
    }

    /// The leading number of the depth field, 1 when it has none.
    pub fn parse_max_depth(&self) -> (r: u32)
        ensures
            r == leading_number(self.max_depth@, 1),
    {
        leading_number_exec(self.max_depth.as_str(), 1)
    }

    /// The leading number of the year field, 2025 when it has none.
    pub fn parse_min_year(&self) -> (r: u32)
        ensures
            r == leading_number(self.min_year@, 2025),
    {
        leading_number_exec(self.min_year.as_str(), 2025)
    }

    /// The enabled extensions, in order.
    pub fn parse_extensions(&self) -> (r: Vec<String>)
        ensures
            views(r@) == enabled_exts(self.extensions@),
    {
        let mut out: Vec<String> = Vec::new();
        let mut i: usize = 0;
        while i < self.extensions.len()
            invariant
                i <= self.extensions.len(),
                views(out@) == enabled_exts(self.extensions@.take(i as int)),
            decreases self.extensions.len() - i,
        {
            assert(self.extensions@.take(i + 1).drop_last() =~= self.extensions@.take(i as int));
            if self.extensions[i].1 {
                let ghost before = out@;
                out.push(self.extensions[i].0.clone());
                assert(views(out@) =~= views(before).push(self.extensions@[i as int].0@));
            }
            i = i + 1;
        }
        assert(self.extensions@.take(self.extensions.len() as int) =~= self.extensions@);
        out
    }

    /// The settings of a run from the form: its URL field as the only URL,
    /// the enabled extensions, the depth and year fields read as numbers, and
    /// `delay` (the delay in seconds as text).
    pub fn crawler_config(&self, delay: &str) -> (c: CrawlerConfig)
        ensures
            views(c.urls@) == seq![self.urls@],
            views(c.file_extensions@) == enabled_exts(self.extensions@),
            c.content_format@ == self.content_format@,
            c.output_dir@ == self.output_dir@,
            c.delay@ == delay@,
            c.max_depth == leading_number(self.max_depth@, 1),
            c.min_year == leading_number(self.min_year@, 2025),
    {
        let urls = vec![self.urls.clone()];
        assert(views(urls@) =~= seq![self.urls@]);
        CrawlerConfig {
            urls,
            file_extensions: self.parse_extensions(),
            content_format: self.content_format.clone(),
            output_dir: self.output_dir.clone(),
            delay: lit(delay),
            max_depth: self.parse_max_depth(),
            min_year: self.parse_min_year(),
        }
    }

    fn log_config(&mut self, delay: &str)
        ensures
            final(self).logs@ == old(self).logs@ + config_log_line(
                old(self).extensions@,
                old(self).max_depth@,
                delay@,
            ) + "\n"@,
            *final(self) == (DPCrawlerDemo { logs: final(self).logs, ..*old(self) }),
    {
        let exts = self.parse_extensions();
        let joined = join_commas_exec(&exts);
        let depth = self.parse_max_depth();
        let digits = u64_to_decimal(depth as u64);
        let mut line = lit("[*] 配置: ");
        line.append(joined.as_str());
        line.append(" 文件类型, max_depth=");
        line.append(digits.as_str());
        line.append(", delay=");
        line.append(delay);
        line.append("s");
        assert(line@ =~= config_log_line(self.extensions@, self.max_depth@, delay@));
        self.append_log(line.as_str());
    }

    fn log_target(&mut self)
        ensures
            final(self).logs@ == old(self).logs@ + "[*] 目标URL: "@ + old(self).urls@ + "\n"@,
            *final(self) == (DPCrawlerDemo { logs: final(self).logs, ..*old(self) }),
    {
        let mut line = lit("[*] 目标URL: ");
        line.append(self.urls.as_str());
        self.append_log(line.as_str());
    }

    /// Starts a whole-site pre-crawl: the state becomes running, the log is
    /// restarted with the target and the settings (`delay` is the delay in
    /// seconds as text). Without a crawler only an error line is logged.
    pub fn begin_pre_crawl(&mut self, delay: &str)
        ensures
            old(self).crawler is None ==> {
                &&& final(self).logs@ == old(self).logs@ + crawler_missing_line() + "\n"@
                &&& *final(self) == (DPCrawlerDemo { logs: final(self).logs, ..*old(self) })
            },
            old(self).crawler is Some ==> {
                &&& final(self).is_running
                &&& final(self).run_mode == RunMode::PreCrawl
                &&& final(self).task_progress_permille == 0
                &&& final(self).status_active
                &&& final(self).status_text@ == "预爬中..."@
                &&& final(self).progress_permille == 0
                &&& final(self).progress_text@ == "正在发现 URL..."@
                &&& final(self).logs@ == "[*] 全站预爬开始..."@ + "\n"@ + "[*] 目标URL: "@
                    + old(self).urls@ + "\n"@ + config_log_line(
                    old(self).extensions@,
                    old(self).max_depth@,
                    delay@,
                ) + "\n"@
                &&& *final(self) == (DPCrawlerDemo {
                    is_running: final(self).is_running,
                    run_mode: final(self).run_mode,
                    task_progress_permille: final(self).task_progress_permille,
                    status_active: final(self).status_active,
                    status_text: final(self).status_text,
                    progress_permille: final(self).progress_permille,
                    progress_text: final(self).progress_text,
                    logs: final(self).logs,
                    ..*old(self)
                })
            },
    {
        if self.crawler.is_none() {
            self.append_log("[ERROR] 爬虫不可用，请检查 Python 环境");
            return;
        }
        self.is_running = true;
        self.run_mode = RunMode::PreCrawl;
        self.task_progress_permille = 0;
        self.status_active = true;
        self.status_text = lit("预爬中...");
        self.progress_permille = 0;
        self.progress_text = lit("正在发现 URL...");
        self.logs = String::new();
        self.append_log("[*] 全站预爬开始...");
        self.log_target();
        self.log_config(delay);
        assert(self.logs@ =~= "[*] 全站预爬开始..."@ + "\n"@ + "[*] 目标URL: "@ + old(self).urls@
            + "\n"@ + config_log_line(old(self).extensions@, old(self).max_depth@, delay@)
            + "\n"@);
    }

    /// Starts a crawl: the state becomes running, the counters are reset and
    /// the log is restarted with the target and the settings (`delay` is the
    /// delay in seconds as text). Without a crawler only an error line is logged.
    pub fn begin_crawl(&mut self, delay: &str)
        ensures
            old(self).crawler is None ==> {
                &&& final(self).logs@ == old(self).logs@ + crawler_missing_line() + "\n"@
                &&& *final(self) == (DPCrawlerDemo { logs: final(self).logs, ..*old(self) })
            },
            old(self).crawler is Some ==> {
                &&& final(self).is_running
                &&& final(self).run_mode == RunMode::Crawling
                &&& final(self).task_progress_permille == 0
                &&& final(self).status_active
                &&& final(self).status_text@ == "爬取中..."@
                &&& final(self).progress_permille == 0
                &&& final(self).progress_text@ == "0 / ?"@
                &&& final(self).new_count == 0 && final(self).updated_count == 0
                    && final(self).unchanged_count == 0 && final(self).error_count == 0
                    && final(self).total_count == 0
                &&& final(self).logs@ == "[*] 开始爬取..."@ + "\n"@ + "[*] 目标URL: "@ + old(self).urls@
                    + "\n"@ + config_log_line(
                    old(self).extensions@,
                    old(self).max_depth@,
                    delay@,
                ) + "\n"@ + "[*] 爬虫已启动，等待结果..."@ + "\n"@
                &&& *final(self) == (DPCrawlerDemo {
                    is_running: final(self).is_running,
                    run_mode: final(self).run_mode,
                    task_progress_permille: final(self).task_progress_permille,
                    status_active: final(self).status_active,
                    status_text: final(self).status_text,
                    progress_permille: final(self).progress_permille,
                    progress_text: final(self).progress_text,
                    logs: final(self).logs,
                    new_count: final(self).new_count,
                    updated_count: final(self).updated_count,
                    unchanged_count: final(self).unchanged_count,
                    error_count: final(self).error_count,
                    total_count: final(self).total_count,
                    ..*old(self)
                })
            },
    {
        if self.crawler.is_none() {
            self.append_log("[ERROR] 爬虫不可用，请检查 Python 环境");
            return;
        }
        self.is_running = true;
        self.run_mode = RunMode::Crawling;
        self.task_progress_permille = 0;
        self.status_active = true;
        self.status_text = lit("爬取中...");
        self.progress_permille = 0;
        self.progress_text = lit("0 / ?");
        self.logs = String::new();
        self.new_count = 0;
        self.updated_count = 0;
        self.unchanged_count = 0;
        self.error_count = 0;
        self.total_count = 0;
        self.append_log("[*] 开始爬取...");
        self.log_target();
        self.log_config(delay);
        self.append_log("[*] 爬虫已启动，等待结果...");
        assert(self.logs@ =~= "[*] 开始爬取..."@ + "\n"@ + "[*] 目标URL: "@ + old(self).urls@ + "\n"@
            + config_log_line(old(self).extensions@, old(self).max_depth@, delay@) + "\n"@
            + "[*] 爬虫已启动，等待结果..."@ + "\n"@);
    }

    /// Stops the running task and logs that it stopped.
    pub fn stop_current_task(&mut self)
        ensures
            !final(self).is_running,
            final(self).run_mode == RunMode::Idle,
            final(self).task_progress_permille == 0,
            !final(self).status_active,
            final(self).status_text@ == "已停止"@,
            final(self).logs@ == old(self).logs@ + "[20:16:50] 正在停止..."@ + "\n"@
                + "[20:16:51] 已停止"@ + "\n"@,
            *final(self) == (DPCrawlerDemo {
                is_running: final(self).is_running,
                run_mode: final(self).run_mode,
                task_progress_permille: final(self).task_progress_permille,
                status_active: final(self).status_active,
                status_text: final(self).status_text,
                logs: final(self).logs,
                ..*old(self)
            }),
    {
        self.is_running = false;
        self.run_mode = RunMode::Idle;
        self.task_progress_permille = 0;
        self.status_active = false;
        self.status_text = lit("已停止");
        self.append_log("[20:16:50] 正在停止...");
        self.append_log("[20:16:51] 已停止");
        assert(self.logs@ =~= old(self).logs@ + "[20:16:50] 正在停止..."@ + "\n"@
            + "[20:16:51] 已停止"@ + "\n"@);
    }

    /// Clears the results of the selected site (its files and its entry), or
    /// of every site when none is selected, and resets the counters, the
    /// preview and the status.
    pub fn clear_results(&mut self)
        ensures
            (match opt_view(old(self).active_site) {
                Some(site) => {
                    &&& final(self).files@ == files_outside(old(self).files@, site)
                    &&& final(self).sites@ == sites_without(old(self).sites@, site)
                    &&& final(self).logs@ == old(self).logs@ + "[20:16:20] 已清空站点结果: "@ + site
                        + "\n"@
                },
                None => {
                    &&& final(self).files@.len() == 0
                    &&& final(self).sites@.len() == 0
                    &&& final(self).logs@ == old(self).logs@ + "[20:16:20] 已清空全部结果"@ + "\n"@
                },
            }),
            final(self).active_site is None,
            final(self).selected_file@.len() == 0,
            final(self).preview@ == preview_hint(),
            final(self).new_count == 0 && final(self).updated_count == 0
                && final(self).unchanged_count == 0 && final(self).error_count == 0
                && final(self).total_count == 0,
            final(self).progress_permille == 0,
            final(self).progress_text@ == "准备就绪"@,
            final(self).status_text@ == "就绪"@,
            *final(self) == (DPCrawlerDemo {
                files: final(self).files,
                sites: final(self).sites,
                logs: final(self).logs,
                active_site: final(self).active_site,
                selected_file: final(self).selected_file,
                preview: final(self).preview,
                new_count: final(self).new_count,
                updated_count: final(self).updated_count,
                unchanged_count: final(self).unchanged_count,
                error_count: final(self).error_count,
                total_count: final(self).total_count,
                progress_permille: final(self).progress_permille,
                progress_text: final(self).progress_text,
                status_text: final(self).status_text,
                ..*old(self)
            }),
    {
        match &self.active_site {
            Some(site) => {
                let site = site.clone();
                self.files = files_outside_exec(&self.files, site.as_str());
                self.sites = sites_without_exec(&self.sites, site.as_str());
                let mut line = lit("[20:16:20] 已清空站点结果: ");
                line.append(site.as_str());
                self.append_log(line.as_str());
                self.active_site = None;
            },
            None => {
                self.files = Vec::new();
                self.sites = Vec::new();
                self.append_log("[20:16:20] 已清空全部结果");
            },
        }
        self.selected_file = String::new();
        self.preview = lit("单击左侧文件即可预览内容");
        self.new_count = 0;
        self.updated_count = 0;
        self.unchanged_count = 0;
        self.error_count = 0;
        self.total_count = 0;
        self.progress_permille = 0;
        self.progress_text = lit("准备就绪");
        self.status_text = lit("就绪");
    }

    /// Removes a site from the sidebar: its files and its entry go, and when
    /// it was the selected site the selection and the preview are reset.
    pub fn delete_site(&mut self, site_name: &str)
        ensures
            final(self).files@ == files_outside(old(self).files@, site_name@),
            final(self).sites@ == sites_without(old(self).sites@, site_name@),
            final(self).logs@ == old(self).logs@ + "[20:16:22] 已删除站点: "@ + site_name@ + "\n"@,
            opt_view(old(self).active_site) == Some(site_name@) ==> {
                &&& final(self).active_site is None
                &&& final(self).selected_file@.len() == 0
                &&& final(self).preview@ == preview_hint()
            },
            opt_view(old(self).active_site) != Some(site_name@) ==> {
                &&& final(self).active_site == old(self).active_site
                &&& final(self).selected_file == old(self).selected_file
                &&& final(self).preview == old(self).preview
            },
            *final(self) == (DPCrawlerDemo {
                files: final(self).files,
                sites: final(self).sites,
                logs: final(self).logs,
                active_site: final(self).active_site,
                selected_file: final(self).selected_file,
                preview: final(self).preview,
                ..*old(self)
            }),
    {
        self.files = files_outside_exec(&self.files, site_name);
        self.sites = sites_without_exec(&self.sites, site_name);
        let selected = match &self.active_site {
            Some(a) => str_eq(a.as_str(), site_name),
            None => false,
        };
        if selected {
            self.active_site = None;
            self.selected_file = String::new();
            self.preview = lit("单击左侧文件即可预览内容");
        }
        let mut line = lit("[20:16:22] 已删除站点: ");
        line.append(site_name);
        self.append_log(line.as_str());
    }

    /// Selects a file of the list and shows its preview.
    pub fn select_file(&mut self, name: &str, status: &str, url: &str)
        ensures
            final(self).selected_file@ == name@,
            final(self).preview@ == file_preview(name@, status_label(status@), url@),
            *final(self) == (DPCrawlerDemo {
                selected_file: final(self).selected_file,
                preview: final(self).preview,
                ..*old(self)
            }),
    {
        let label = file_status_label(status);
        let mut p = lit("# ");
        p.append(name);
        p.append("\n\n来源状态：");
        p.append(label.as_str());
        p.append("\n来源链接：");
        p.append(url);
        p.append("\n\n这是 ");
        p.append(name);
        p.append(
            " 的预览内容。\n\n- 采集时间：2026-04-09\n- 内容格式：Markdown\n- 抽取状态：已完成\n\n| 字段 | 值 |\n| --- | --- |\n| 标题 | ",
        );
        p.append(name);
        p.append(" |\n| 分类 | 政策通知 |\n| 标签 | RAG / 爬虫 / 文档 |\n");
        assert(p@ =~= file_preview(name@, status_label(status@), url@));
        self.selected_file = lit(name);
        self.preview = p;
    }
}


/// Whether the desktop is in dark mode, by its GTK theme name (`GTK_THEME`,
/// `None` when unset): it is when the name holds `dark`.
pub fn is_system_dark_mode(gtk_theme: Option<String>) -> (r: bool)
    ensures
        r == (match opt_view(gtk_theme) {
            Some(t) => contains(t, "dark"@),
            None => false,
        }),
{
    match gtk_theme {
        Some(t) => {
            let c = chars_of(t.as_str());
            contains_exec(&c, &chars_of("dark"))
        },
        None => false,
    }
}


/// Whether macOS is in dark mode, by what `defaults read -g
/// AppleInterfaceStyle` printed (`None` when it could not be run or its
/// output is not UTF-8): it is when the output holds `Dark`.
pub fn is_system_dark_mode_macos(defaults_output: Option<String>) -> (r: bool)
    ensures
        r == (match opt_view(defaults_output) {
            Some(t) => contains(t, "Dark"@),
            None => false,
        }),
{
    match defaults_output {
        Some(t) => {
            let c = chars_of(t.as_str());
            contains_exec(&c, &chars_of("Dark"))
        },
        None => false,
    }
}

/// Whether Windows is in dark mode, by the `AppsUseLightTheme` value of the
/// user's theme settings (`None` when it could not be read): it is when the
/// value is 0.
pub fn is_system_dark_mode_windows(apps_use_light_theme: Option<u32>) -> (r: bool)
    ensures
        r == (apps_use_light_theme == Some(0u32)),
{
    match apps_use_light_theme {
        Some(v) => v == 0,
        None => false,
    }
}

/// The statuses of `v` never go down, and none ranks above `m`.
pub open spec fn ranks_upto(v: Seq<FileEntry>, m: nat) -> bool {
    &&& forall|i: int, j: int|
        0 <= i < j < v.len() ==> status_rank(#[trigger] v[i].1@) <= status_rank(#[trigger] v[j].1@)
    &&& forall|i: int| 0 <= i < v.len() ==> status_rank(#[trigger] v[i].1@) <= m
}

proof fn lemma_files_of_rank_rank(files: Seq<FileEntry>, k: nat)
    ensures
        forall|i: int|
            0 <= i < files_of_rank(files, k).len() ==> status_rank(
                #[trigger] files_of_rank(files, k)[i].1@,
            ) == k,
    decreases files.len(),
{
    if files.len() > 0 {
        let r = files_of_rank(files.drop_last(), k);
        lemma_files_of_rank_rank(files.drop_last(), k);
        assert forall|i: int| 0 <= i < files_of_rank(files, k).len() implies status_rank(
            #[trigger] files_of_rank(files, k)[i].1@,
        ) == k by {
            if i < r.len() {
                assert(files_of_rank(files, k)[i] == r[i]);
            }
        }
    }
}

proof fn lemma_append_ranked(a: Seq<FileEntry>, b: Seq<FileEntry>, m: nat, k: nat)
    requires
        ranks_upto(a, m),
        m <= k,
        forall|i: int| 0 <= i < b.len() ==> status_rank(#[trigger] b[i].1@) == k,
    ensures
        ranks_upto(a + b, k),
{
    let c = a + b;
    assert forall|i: int, j: int| 0 <= i < j < c.len() implies status_rank(#[trigger] c[i].1@)
        <= status_rank(#[trigger] c[j].1@) by {
        if j < a.len() {
            assert(c[i] == a[i] && c[j] == a[j]);
        } else if i < a.len() {
            assert(c[i] == a[i] && c[j] == b[j - a.len()]);
        } else {
            assert(c[i] == b[i - a.len()] && c[j] == b[j - a.len()]);
        }
    }
    assert forall|i: int| 0 <= i < c.len() implies status_rank(#[trigger] c[i].1@) <= k by {
        if i < a.len() {
            assert(c[i] == a[i]);
        } else {
            assert(c[i] == b[i - a.len()]);
        }
    }
}

/// The visible files are ordered by status: new files come first, then
/// updated, unchanged and failed ones, then the rest.
pub proof fn lemma_sorted_by_status_ordered(files: Seq<FileEntry>)
    ensures
        forall|i: int, j: int|
            0 <= i < j < sorted_by_status(files).len() ==> status_rank(
                #[trigger] sorted_by_status(files)[i].1@,
            ) <= status_rank(#[trigger] sorted_by_status(files)[j].1@),
{
    let a0 = files_of_rank(files, 0);
    let a1 = files_of_rank(files, 1);
    let a2 = files_of_rank(files, 2);
    let a3 = files_of_rank(files, 3);
    let a9 = files_of_rank(files, 9);
    lemma_files_of_rank_rank(files, 0);
    lemma_files_of_rank_rank(files, 1);
    lemma_files_of_rank_rank(files, 2);
    lemma_files_of_rank_rank(files, 3);
    lemma_files_of_rank_rank(files, 9);
    lemma_append_ranked(Seq::empty(), a0, 0, 0);
    assert(Seq::<FileEntry>::empty() + a0 =~= a0);
    lemma_append_ranked(a0, a1, 0, 1);
    lemma_append_ranked(a0 + a1, a2, 1, 2);
    lemma_append_ranked(a0 + a1 + a2, a3, 2, 3);
    lemma_append_ranked(a0 + a1 + a2 + a3, a9, 3, 9);
}

/// Every status ranks 0, 1, 2, 3 or 9.
proof fn lemma_rank_values(status: Seq<char>)
    ensures
        status_rank(status) == 0 || status_rank(status) == 1 || status_rank(status) == 2
            || status_rank(status) == 3 || status_rank(status) == 9,
{
}

/// Sorting the visible files by status neither loses nor adds a file.
pub proof fn lemma_sorted_by_status_permutation(files: Seq<FileEntry>)
    ensures
        sorted_by_status(files).to_multiset() == files.to_multiset(),
    decreases files.len(),
{
    broadcast use vstd::seq_lib::group_to_multiset_ensures, vstd::seq_lib::lemma_multiset_commutative;

    if files.len() == 0 {
        assert(sorted_by_status(files) =~= Seq::<FileEntry>::empty());
    } else {
        let s = files.drop_last();
        let x = files.last();
        lemma_sorted_by_status_permutation(s);
        assert(s.push(x) =~= files);
        lemma_rank_values(x.1@);
        let ms = |k: nat| files_of_rank(files, k).to_multiset();
        let mo = |k: nat| files_of_rank(s, k).to_multiset();
        assert forall|k: nat| #[trigger] ms(k) == if status_rank(x.1@) == k {
            mo(k).insert(x)
        } else {
            mo(k)
        } by {
            if status_rank(x.1@) == k {
                assert(files_of_rank(files, k) == files_of_rank(s, k).push(x));
            } else {
                assert(files_of_rank(files, k) == files_of_rank(s, k));
            }
        }
        assert(sorted_by_status(files).to_multiset() =~= ms(0).add(ms(1)).add(ms(2)).add(
            ms(3),
        ).add(ms(9)));
        assert(sorted_by_status(s).to_multiset() =~= mo(0).add(mo(1)).add(mo(2)).add(mo(3)).add(
            mo(9),
        ));
        assert(sorted_by_status(files).to_multiset() =~= sorted_by_status(s).to_multiset().insert(
            x,
        ));
    }
}

/// With a site selected, only its files are visible.
pub proof fn lemma_shown_in_site(files: Seq<FileEntry>, site: Seq<char>)
    ensures
        forall|i: int|
            0 <= i < files_shown(files, Some(site)).len() ==> in_site(
                #[trigger] files_shown(files, Some(site))[i],
                site,
            ),
    decreases files.len(),
{
    if files.len() > 0 {
        let r = files_shown(files.drop_last(), Some(site));
        lemma_shown_in_site(files.drop_last(), site);
        assert forall|i: int| 0 <= i < files_shown(files, Some(site)).len() implies in_site(
            #[trigger] files_shown(files, Some(site))[i],
            site,
        ) by {
            if i < r.len() {
                assert(files_shown(files, Some(site))[i] == r[i]);
            }
        }
    }
}

/// Clearing or deleting a site leaves none of its files and keeps every
/// other file.
pub proof fn lemma_files_outside(files: Seq<FileEntry>, site: Seq<char>)
    ensures
        forall|i: int|
            0 <= i < files_outside(files, site).len() ==> !in_site(
                #[trigger] files_outside(files, site)[i],
                site,
            ),
        forall|i: int|
            0 <= i < files.len() && !in_site(#[trigger] files[i], site) ==> files_outside(
                files,
                site,
            ).contains(files[i]),
    decreases files.len(),
{
    if files.len() > 0 {
        let s = files.drop_last();
        lemma_files_outside(s, site);
        assert forall|i: int|
            0 <= i < files.len() && !in_site(#[trigger] files[i], site) implies files_outside(
            files,
            site,
        ).contains(files[i]) by {
            if i < files.len() - 1 {
                assert(files[i] == s[i]);
                let k = choose|k: int|
                    0 <= k < files_outside(s, site).len() && files_outside(s, site)[k] == s[i];
                assert(files_outside(files, site)[k] == s[i]);
            } else {
                assert(files_outside(files, site).last() == files[i]);
            }
        }
    }
}

/// Clearing or deleting a site removes its entry from the site list.
pub proof fn lemma_sites_without(sites: Seq<(String, usize)>, site: Seq<char>)
    ensures
        forall|i: int|
            0 <= i < sites_without(sites, site).len() ==> (#[trigger] sites_without(
                sites,
                site,
            )[i]).0@ != site,
    decreases sites.len(),
{
    if sites.len() > 0 {
        let r = sites_without(sites.drop_last(), site);
        lemma_sites_without(sites.drop_last(), site);
        assert forall|i: int| 0 <= i < sites_without(sites, site).len() implies (
        #[trigger] sites_without(sites, site)[i]).0@ != site by {
            if i < r.len() {
                assert(sites_without(sites, site)[i] == r[i]);
            }
        }
    }
}


/// The label a choice list shows for the current value: the label of the
/// first option with that value, or the value itself.
pub open spec fn option_label_spec(current: Seq<char>, options: Seq<(String, String)>) -> Seq<char>
    decreases options.len(),
{
    if options.len() == 0 {
        current
    } else if options[0].0@ == current {
        options[0].1@
    } else {
        option_label_spec(current, options.drop_first())
    }
}

pub fn option_label(current: &str, options: &Vec<(String, String)>) -> (r: String)
    ensures
        r@ == option_label_spec(current@, options@),
{
    let mut i: usize = 0;
    assert(options@.skip(0) =~= options@);
    while i < options.len()
        invariant
            i <= options.len(),
            option_label_spec(current@, options@) == option_label_spec(
                current@,
                options@.skip(i as int),
            ),
        decreases options.len() - i,
    {
        assert(options@.skip(i as int)[0] == options@[i as int]);
        assert(options@.skip(i as int).drop_first() =~= options@.skip(i + 1));
        if str_eq(options[i].0.as_str(), current) {
            return options[i].1.clone();
        }
        i = i + 1;
    }
    assert(options@.skip(i as int).len() == 0);
    lit(current)
}

/// The label of a theme choice.
pub open spec fn theme_label_spec(mode: ThemeMode) -> Seq<char> {
    match mode {
        ThemeMode::Auto => "自动"@,
        ThemeMode::Dark => "深色"@,
        ThemeMode::Light => "浅色"@,
    }
}

pub fn theme_label(mode: ThemeMode) -> (r: String)
    ensures
        r@ == theme_label_spec(mode),
{
    match mode {
        ThemeMode::Auto => lit("自动"),
        ThemeMode::Dark => lit("深色"),
        ThemeMode::Light => lit("浅色"),
    }
}

/// The colour a file status is shown in: new files in the success colour,
/// updated ones in the warning colour, the rest muted.
pub open spec fn status_color_spec(p: ThemePalette, status: Seq<char>) -> Rgba {
    if status == "new"@ {
        p.success
    } else if status == "updated"@ {
        p.warning
    } else {
        p.muted
    }
}

pub fn status_color(p: &ThemePalette, status: &str) -> (r: Rgba)
    ensures
        r == status_color_spec(*p, status@),
{
    if str_eq(status, "new") {
        p.success
    } else if str_eq(status, "updated") {
        p.warning
    } else {
        p.muted
    }
}

impl DPCrawlerDemo {
    /// The heading of the preview pane: the selected file, or a prompt to select one.
    pub fn preview_title(&self) -> (r: String)
        ensures
            r@ == (if self.selected_file@.len() == 0 {
                "选择文件预览"@
            } else {
                self.selected_file@
            }),
    {
        if self.selected_file.as_str().is_empty() {
            lit("选择文件预览")
        } else {
            self.selected_file.clone()
        }
    }
}

} // verus!
