//! Reading the crawler process's standard output, line by line: progress
//! events for the front end, and the result record that follows the
//! `=== RESULT ===` marker.
use vstd::prelude::*;
use crate::text::{
    after_last, after_last_exec, chars_of, contains, contains_exec, lit, parse_i32, parse_i32_exec,
    second_piece, second_piece_exec, split_whitespace, starts_with, starts_with_exec, string_of,
    trim, trim_exec, words,
};

verus! {

/// A progress event of a full crawl.
pub struct CrawlProgress {
    pub line: String,
    pub file_name: String,
    pub status: String,
    pub url: String,
}

/// A progress event of a pre-crawl (URL discovery) run.
pub struct PreCrawlProgress {
    pub depth: i32,
    pub found: i32,
    pub url: String,
    pub is_doc: bool,
}

/// What one line of a crawl's output reports.
pub struct CrawlStep {
    pub file_name: Seq<char>,
    pub status: Seq<char>,
    pub url: Seq<char>,
    pub last_url: Seq<char>,
}

/// The event of a crawl output line, given the URL last crawled: a
/// `Crawling:` or `[skip]` line names a URL (and a skip sets the status); a
/// `-> New:`, `-> Updated:` or `-> Unchanged:` line names a file, reported
/// under the URL last crawled; a `-> Error:` line sets the status.
pub open spec fn crawl_step(last_url: Seq<char>, line: Seq<char>) -> CrawlStep {
    let named = if contains(line, "Crawling:"@) {
        Some(trim(after_last(line, "Crawling:"@)))
    } else if contains(line, "[skip]"@) {
        Some(trim(after_last(line, ": "@)))
    } else {
        None
    };
    let url1 = match named {
        Some(u) => u,
        None => Seq::empty(),
    };
    let last1 = match named {
        Some(u) => u,
        None => last_url,
    };
    let status1 = if !contains(line, "Crawling:"@) && contains(line, "[skip]"@) {
        "skip"@
    } else {
        "info"@
    };
    if contains(line, "-> New:"@) {
        CrawlStep {
            file_name: trim(after_last(line, "-> New:"@)),
            status: "new"@,
            url: last1,
            last_url: last1,
        }
    } else if contains(line, "-> Updated:"@) {
        CrawlStep {
            file_name: trim(after_last(line, "-> Updated:"@)),
            status: "updated"@,
            url: last1,
            last_url: last1,
        }
    } else if contains(line, "-> Unchanged:"@) {
        CrawlStep {
            file_name: trim(after_last(line, "-> Unchanged:"@)),
            status: "unchanged"@,
            url: last1,
            last_url: last1,
        }
    } else if contains(line, "-> Error:"@) {
        CrawlStep { file_name: Seq::empty(), status: "error"@, url: url1, last_url: last1 }
    } else {
        CrawlStep { file_name: Seq::empty(), status: status1, url: url1, last_url: last1 }
    }
}

/// The line after which the crawler prints its result record.
pub open spec fn is_result_marker(line: Seq<char>) -> bool {
    contains(line, "=== RESULT ==="@)
}


/// The state kept while reading a crawl's output.
pub struct CrawlOutput {
    pub in_result: bool,
    pub result_json: String,
    pub last_url: String,
}

impl CrawlOutput {
    pub fn new() -> (r: Self)
        ensures
            !r.in_result,
            r.result_json@ == Seq::<char>::empty(),
            r.last_url@ == Seq::<char>::empty(),
    {
        CrawlOutput { in_result: false, result_json: String::new(), last_url: String::new() }
    }

    /// Reads one output line: the marker switches to the result record, whose
    /// last line is kept; before it, each line yields a progress event.
    pub fn feed_line(&mut self, line: &str) -> (r: Option<CrawlProgress>)
        ensures
            is_result_marker(line@) ==> {
                &&& final(self).in_result
                &&& final(self).result_json == old(self).result_json
                &&& final(self).last_url == old(self).last_url
                &&& r is None
            },
            !is_result_marker(line@) && old(self).in_result ==> {
                &&& final(self).in_result
                &&& final(self).result_json@ == line@
                &&& final(self).last_url == old(self).last_url
                &&& r is None
            },
            !is_result_marker(line@) && !old(self).in_result ==> {
                let st = crawl_step(old(self).last_url@, line@);
                &&& !final(self).in_result
                &&& final(self).result_json == old(self).result_json
                &&& final(self).last_url@ == st.last_url
                &&& r matches Some(p) && p.line@ == line@ && p.file_name@ == st.file_name
                    && p.status@ == st.status && p.url@ == st.url
            },
    {
        let l = chars_of(line);
        if contains_exec(&l, &chars_of("=== RESULT ===")) {
            self.in_result = true;
            return None;
        }
        if self.in_result {
            self.result_json = string_of(&l);
            return None;
        }
        let ghost st = crawl_step(self.last_url@, line@);
        let mut file_name = String::new();
        let mut status = lit("info");
        let mut current_url = String::new();
        if contains_exec(&l, &chars_of("Crawling:")) {
            let u = trim_exec(&after_last_exec(&l, &chars_of("Crawling:")));
            current_url = string_of(&u);
            self.last_url = string_of(&u);
        } else if contains_exec(&l, &chars_of("[skip]")) {
            let u = trim_exec(&after_last_exec(&l, &chars_of(": ")));
            current_url = string_of(&u);
            self.last_url = string_of(&u);
            status = lit("skip");
        }
        if contains_exec(&l, &chars_of("-> New:")) {
            file_name = string_of(&trim_exec(&after_last_exec(&l, &chars_of("-> New:"))));
            status = lit("new");
            current_url = self.last_url.clone();
        } else if contains_exec(&l, &chars_of("-> Updated:")) {
            file_name = string_of(&trim_exec(&after_last_exec(&l, &chars_of("-> Updated:"))));
            status = lit("updated");
            current_url = self.last_url.clone();
        } else if contains_exec(&l, &chars_of("-> Unchanged:")) {
            file_name = string_of(&trim_exec(&after_last_exec(&l, &chars_of("-> Unchanged:"))));
            status = lit("unchanged");
            current_url = self.last_url.clone();
        } else if contains_exec(&l, &chars_of("-> Error:")) {
            status = lit("error");
        }
        Some(CrawlProgress { line: string_of(&l), file_name, status, url: current_url })
    }

    /// The result record once the process has ended, or the error reported
    /// when the crawler printed none.
    pub fn finish(&self) -> (r: Result<String, String>)
        ensures
            self.result_json@.len() == 0 ==> (r matches Err(e) && e@ == "No result from crawler"@),
            self.result_json@.len() > 0 ==> (r matches Ok(s) && s@ == self.result_json@),
    {
        if self.result_json.as_str().is_empty() {
            Err(lit("No result from crawler"))
        } else {
            Ok(self.result_json.clone())
        }
    }
}

/// A number reported as `key=<n>` in a pre-crawl line: the first word after
/// the first `key`, read as an `i32`; 0 when it is missing or not a number.
pub open spec fn pre_crawl_field(line: Seq<char>, key: Seq<char>) -> i32 {
    match second_piece(line, key) {
        Some(p) => if words(p).len() > 0 {
            match parse_i32(words(p)[0]) {
                Some(v) => v,
                None => 0,
            }
        } else {
            0
        },
        None => 0,
    }
}

/// The URL of a pre-crawl line: its last word when that starts with `http`.
pub open spec fn pre_crawl_url(line: Seq<char>) -> Seq<char> {
    let ws = words(line);
    if ws.len() > 0 && starts_with(ws.last(), "http"@) {
        ws.last()
    } else {
        Seq::empty()
    }
}

fn pre_crawl_field_exec(l: &Vec<char>, key: &str) -> (r: i32)
    ensures
        r == pre_crawl_field(l@, key@),
{
    match second_piece_exec(l, &chars_of(key)) {
        Some(p) => {
            let ws = split_whitespace(&p);
            let ghost wv = ws@.map_values(|w: Vec<char>| w@);
            if ws.len() > 0 {
                assert(wv[0] == ws@[0]@);
                match parse_i32_exec(&ws[0]) {
                    Some(v) => v,
                    None => 0,
                }
            } else {
                0
            }
        },
        None => 0,
    }
}

/// The state kept while reading a pre-crawl's output.
pub struct PreCrawlOutput {
    pub in_result: bool,
    pub result_json: String,
}

impl PreCrawlOutput {
    pub fn new() -> (r: Self)
        ensures
            !r.in_result,
            r.result_json@ == Seq::<char>::empty(),
    {
        PreCrawlOutput { in_result: false, result_json: String::new() }
    }

    /// Reads one output line: before the result marker every line is passed on
    /// as a log event, and a `[pre-crawl]` line also as a discovery event.
    pub fn feed_line(&mut self, line: &str) -> (r: (Option<PreCrawlProgress>, Option<CrawlProgress>))
        ensures
            is_result_marker(line@) ==> {
                &&& final(self).in_result
                &&& final(self).result_json == old(self).result_json
                &&& r.0 is None && r.1 is None
            },
            !is_result_marker(line@) && old(self).in_result ==> {
                &&& final(self).in_result
                &&& final(self).result_json@ == line@
                &&& r.0 is None && r.1 is None
            },
            !is_result_marker(line@) && !old(self).in_result ==> {
                &&& !final(self).in_result
                &&& final(self).result_json == old(self).result_json
                &&& r.1 matches Some(p) && p.line@ == line@ && p.file_name@.len() == 0
                    && p.status@ == "info"@ && p.url@.len() == 0
                &&& contains(line@, "[pre-crawl]"@) ==> (r.0 matches Some(q) && q.depth
                    == pre_crawl_field(line@, "depth="@) && q.found == pre_crawl_field(
                    line@,
                    "found="@,
                ) && q.url@ == pre_crawl_url(line@) && q.is_doc == contains(line@, "(doc)"@))
                &&& !contains(line@, "[pre-crawl]"@) ==> r.0 is None
            },
    {
        let l = chars_of(line);
        if contains_exec(&l, &chars_of("=== RESULT ===")) {
            self.in_result = true;
            return (None, None);
        }
        if self.in_result {
            self.result_json = string_of(&l);
            return (None, None);
        }
        let mut pre = None;
        if contains_exec(&l, &chars_of("[pre-crawl]")) {
            let depth = pre_crawl_field_exec(&l, "depth=");
            let found = pre_crawl_field_exec(&l, "found=");
            let is_doc = contains_exec(&l, &chars_of("(doc)"));
            let ws = split_whitespace(&l);
            let ghost wv = ws@.map_values(|w: Vec<char>| w@);
            let mut url = String::new();
            if ws.len() > 0 {
                assert(wv.last() == ws@[ws.len() - 1]@);
                if starts_with_exec(&ws[ws.len() - 1], &chars_of("http")) {
                    url = string_of(&ws[ws.len() - 1]);
                }
            }
            pre = Some(PreCrawlProgress { depth, found, url, is_doc });
        }
        let log = CrawlProgress {
            line: string_of(&l),
            file_name: String::new(),
            status: lit("info"),
            url: String::new(),
        };
        (pre, Some(log))
    }

    /// The result record once the process has ended: an error when the process
    /// failed without one, or when none was printed.
    pub fn finish(&self, exit_success: bool) -> (r: Result<String, String>)
        ensures
            self.result_json@.len() == 0 && !exit_success ==> (r matches Err(e) && e@
                == "Pre-crawl process failed"@),
            self.result_json@.len() == 0 && exit_success ==> (r matches Err(e) && e@
                == "No result from pre-crawl"@),
            self.result_json@.len() > 0 ==> (r matches Ok(s) && s@ == self.result_json@),
    {
        if !exit_success && self.result_json.as_str().is_empty() {
            return Err(lit("Pre-crawl process failed"));
        }
        if self.result_json.as_str().is_empty() {
            return Err(lit("No result from pre-crawl"));
        }
        Ok(self.result_json.clone())
    }
}

} // verus!
