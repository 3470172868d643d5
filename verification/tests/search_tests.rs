use dpcrawler::extract::{extract_dense_block, extract_snippet, is_dense_block_defined, is_snippet_defined};
use dpcrawler::index::SearchIndex;
use dpcrawler::result::SearchResult;
use dpcrawler::tokenize::{is_cjk, tokenize};

fn strings(v: &[&str]) -> Vec<String> {
    v.iter().map(|s| s.to_string()).collect()
}

#[test]
fn tokenize_latin_and_cjk() {
    let t = tokenize("Hello, World! 你好世界 rust2024");
    assert_eq!(t, strings(&["hello", "world", "你好", "好世", "世界", "界", "rust2024"]));
}

#[test]
fn tokenize_splits_at_inner_punctuation() {
    assert_eq!(tokenize("a-b c_d"), strings(&["a", "b", "c", "d"]));
}

#[test]
fn tokenize_punctuation_only_gives_nothing() {
    assert!(tokenize("... !!! ,").is_empty());
    assert!(tokenize("").is_empty());
}

#[test]
fn tokenize_tokens_are_never_empty() {
    for text in ["a  b", "--x--", "中 文", "mixed中文text"] {
        for tok in tokenize(text) {
            assert!(!tok.is_empty());
        }
    }
}

#[test]
fn tokenize_mixed_run() {
    assert_eq!(tokenize("mixed中文text"), strings(&["mixed", "中文", "文", "text"]));
}

#[test]
fn cjk_ranges() {
    assert!(is_cjk('中'));
    assert!(is_cjk('\u{3400}'));
    assert!(!is_cjk('a'));
    assert!(!is_cjk('。'));
}

#[test]
fn snippet_short_text_is_whole() {
    let toks = strings(&["fox"]);
    assert!(is_snippet_defined("The quick brown fox", &toks));
    assert_eq!(extract_snippet("The quick brown fox", &toks), "The quick brown fox");
}

#[test]
fn snippet_window_with_ellipses() {
    let content = format!("{}needle{}", "x".repeat(40), "y".repeat(200));
    let toks = strings(&["needle"]);
    assert!(is_snippet_defined(&content, &toks));
    let expected = format!("...{}needle{}...", "x".repeat(30), "y".repeat(84));
    assert_eq!(extract_snippet(&content, &toks), expected);
}

#[test]
fn snippet_flattens_line_breaks() {
    let toks = strings(&["b"]);
    assert!(is_snippet_defined("a\r\nb\nc", &toks));
    assert_eq!(extract_snippet("a\r\nb\nc", &toks), "a b c");
}

#[test]
fn dense_block_spans_nearby_hits() {
    let content = "intro\nfox one\nfiller\nfox two\nend";
    let toks = strings(&["fox"]);
    assert!(is_dense_block_defined(content, &toks));
    let (s, e, block) = extract_dense_block(content, &toks);
    assert_eq!((s, e), (2, 4));
    assert_eq!(block, "fox one\nfiller\nfox two");
}

#[test]
fn dense_block_without_hits() {
    let toks = strings(&["zebra"]);
    assert!(is_dense_block_defined("a\nb", &toks));
    assert_eq!(extract_dense_block("a\nb", &toks), (0, 0, String::new()));
}

fn sample_index() -> SearchIndex {
    let mut idx = SearchIndex::new();
    idx.add_document(
        "s/a".to_string(),
        "A".to_string(),
        "rust is fast".to_string(),
        "http://a".to_string(),
        "/p/a.md".to_string(),
    );
    idx.add_document(
        "s/b".to_string(),
        "B".to_string(),
        "rust and 中文".to_string(),
        "http://b".to_string(),
        "/p/b.md".to_string(),
    );
    idx.build();
    idx
}

#[test]
fn index_counts_terms_and_documents() {
    let idx = sample_index();
    assert_eq!(idx.num_docs(), 2);
    assert_eq!(idx.doc_freq(&"rust".to_string()), 2);
    assert_eq!(idx.doc_freq(&"fast".to_string()), 1);
    assert_eq!(idx.doc_freq(&"文".to_string()), 1);
    assert_eq!(idx.doc_freq(&"missing".to_string()), 0);
    assert_eq!(idx.term_freq(0, &"rust".to_string()), 1);
    assert_eq!(idx.doc_len(1), 4);
    assert_eq!(idx.built_stats(), (7, 2));
}

#[test]
fn doc_freq_grows_by_one_per_containing_document() {
    let mut idx = SearchIndex::new();
    idx.add_document("a".into(), "a".into(), "x y x".into(), "".into(), "".into());
    assert_eq!(idx.doc_freq(&"x".to_string()), 1);
    idx.add_document("b".into(), "b".into(), "y".into(), "".into(), "".into());
    assert_eq!(idx.doc_freq(&"x".to_string()), 1);
    assert_eq!(idx.doc_freq(&"y".to_string()), 2);
    assert_eq!(idx.term_freq(0, &"x".to_string()), 2);
}

#[test]
fn search_takes_ranked_documents_up_to_top_k() {
    let idx = sample_index();
    let hits = idx.search_checked("Rust", 1, &vec![1, 0]).unwrap();
    assert_eq!(hits.len(), 1);
    let h = &hits[0];
    assert_eq!(h.filename, "s/b");
    assert_eq!(h.title, "B");
    assert_eq!(h.snippet, "rust and 中文");
    assert_eq!(h.url, "http://b");
    assert_eq!((h.start_line, h.end_line), (1, 1));
    assert_eq!(h.matched_block, "rust and 中文");
    assert_eq!(h.local_path, "/p/b.md");
    assert!(h.md_download_url.is_none());
    let all = idx.search_checked("rust", 5, &vec![0, 1]).unwrap();
    assert_eq!(all.len(), 2);
    assert_eq!(all[0].filename, "s/a");
}

#[test]
fn search_without_query_tokens_is_empty() {
    let idx = sample_index();
    assert_eq!(idx.search_checked("  ...  ", 3, &vec![0]).unwrap().len(), 0);
    let empty = SearchIndex::new();
    assert_eq!(empty.search_checked("rust", 3, &vec![0]).unwrap().len(), 0);
}

#[test]
fn search_refuses_unknown_document() {
    let idx = sample_index();
    assert!(idx.search_checked("rust", 3, &vec![7]).is_none());
}

fn hit(filename: &str, block: &str) -> SearchResult {
    SearchResult {
        filename: filename.to_string(),
        title: "t".to_string(),
        snippet: "s".to_string(),
        url: "u".to_string(),
        start_line: 3,
        end_line: 4,
        matched_block: block.to_string(),
        local_path: "/l".to_string(),
        md_download_url: None,
        html_view_url: None,
        html_block_view_url: None,
    }
}

#[test]
fn inject_urls_builds_links() {
    let mut r = hit("site/page one", "a b");
    r.inject_urls(18088, "site", "out dir", "中 q");
    assert_eq!(r.md_download_url.as_deref(), Some("/files/site/docs/page one.md?output_dir=out+dir"));
    assert_eq!(
        r.html_view_url.as_deref(),
        Some("/files/site/html_views/page one.html?output_dir=out+dir&highlight=%E4%B8%AD+q")
    );
    assert_eq!(
        r.html_block_view_url.as_deref(),
        Some("/files/site/html_views/page one.html?output_dir=out+dir&highlight_block=a+b")
    );
    assert_eq!(r.filename, "site/page one");
    assert_eq!(r.matched_block, "a b");
    assert_eq!((r.start_line, r.end_line), (3, 4));
}

#[test]
fn inject_urls_without_site_prefix_and_special_bytes() {
    let mut r = hit("plain", "x&y=z/*-._~");
    r.inject_urls(1, "s", "./output", "q");
    assert_eq!(r.md_download_url.as_deref(), Some("/files/s/docs/plain.md?output_dir=.%2Foutput"));
    assert_eq!(
        r.html_block_view_url.as_deref(),
        Some("/files/s/html_views/plain.html?output_dir=.%2Foutput&highlight_block=x%26y%3Dz%2F*-._%7E")
    );
}

#[test]
fn dense_block_is_cut_around_its_busiest_line() {
    let content = vec!["fox"; 30].join("\n");
    let toks = strings(&["fox"]);
    assert!(is_dense_block_defined(&content, &toks));
    let (s, e, block) = extract_dense_block(&content, &toks);
    assert_eq!((s, e), (1, 11));
    assert_eq!(block.lines().count(), 11);
    assert!(e - s <= 15);
}

#[test]
fn dense_block_picks_the_busier_cluster() {
    let mut lines = vec!["fox a"];
    lines.extend(vec!["x"; 10]);
    lines.extend(vec!["fox b", "fox c", "fox d"]);
    let content = lines.join("\n");
    let toks = strings(&["fox"]);
    let (s, e, block) = extract_dense_block(&content, &toks);
    assert_eq!((s, e), (12, 14));
    assert_eq!(block, "fox b\nfox c\nfox d");
}

#[test]
fn snippet_never_exceeds_window() {
    let content = "z".repeat(1000);
    let toks = strings(&["q"]);
    assert!(is_snippet_defined(&content, &toks));
    let s = extract_snippet(&content, &toks);
    assert_eq!(s, format!("{}...", "z".repeat(120)));
    assert!(s.chars().count() <= 126);
}

#[test]
fn token_stats_for_scoring() {
    let idx = sample_index();
    let (stats, matched) = idx.token_stats(1, &strings(&["rust", "fast", "中文", "rust", "zzz"]));
    assert_eq!(stats, vec![(1, 2), (0, 1), (1, 1), (1, 2), (0, 0)]);
    assert_eq!(matched, 3);
}

#[test]
fn inject_urls_for_a_site_relative_name() {
    let mut r = hit("docs/2026年报名简章.md", "b");
    r.inject_urls(18088, "SiteA", "output", "q");
    assert_eq!(r.md_download_url.as_deref(), Some("/files/SiteA/docs/2026年报名简章.md?output_dir=output"));
    assert_eq!(
        r.html_view_url.as_deref(),
        Some("/files/SiteA/html_views/2026年报名简章.html?output_dir=output&highlight=q")
    );
    assert_eq!(r.filename, "docs/2026年报名简章.md");
}

#[test]
fn smaller_top_k_gives_a_prefix_and_case_does_not_matter() {
    let idx = sample_index();
    let two = idx.search_checked("rust", 2, &vec![1, 0]).unwrap();
    let one = idx.search_checked("RUST!", 1, &vec![1, 0]).unwrap();
    assert_eq!(one.len(), 1);
    assert_eq!(one[0].filename, two[0].filename);
    assert_eq!(one[0].snippet, two[0].snippet);
    assert_eq!(one[0].matched_block, two[0].matched_block);
}
