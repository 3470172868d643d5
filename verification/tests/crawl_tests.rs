use dpcrawler::crawl_output::{CrawlOutput, PreCrawlOutput};
use dpcrawler::sidecar::{
    pre_crawl_outcome, pre_crawl_summary, run_without_result, CrawlerConfig, CrawlerSidecar, PreCrawlResult,
    SidecarOutput,
};

#[test]
fn crawl_output_reports_urls_and_files() {
    let mut out = CrawlOutput::new();
    let p = out.feed_line("Crawling: https://a.com/x ").unwrap();
    assert_eq!(p.url, "https://a.com/x");
    assert_eq!(p.status, "info");
    assert_eq!(p.file_name, "");
    assert_eq!(p.line, "Crawling: https://a.com/x ");

    let p = out.feed_line("  -> New: file1.md").unwrap();
    assert_eq!(p.file_name, "file1.md");
    assert_eq!(p.status, "new");
    assert_eq!(p.url, "https://a.com/x");

    let p = out.feed_line("  -> Updated: file2.md ").unwrap();
    assert_eq!((p.file_name.as_str(), p.status.as_str()), ("file2.md", "updated"));

    let p = out.feed_line("[skip] seen before: https://b.com").unwrap();
    assert_eq!(p.url, "https://b.com");
    assert_eq!(p.status, "skip");

    let p = out.feed_line("  -> Unchanged: f3").unwrap();
    assert_eq!(p.url, "https://b.com");
    assert_eq!(p.status, "unchanged");

    let p = out.feed_line("-> Error: boom").unwrap();
    assert_eq!(p.status, "error");
    assert_eq!(p.url, "");
    assert_eq!(p.file_name, "");
}

#[test]
fn crawl_output_keeps_last_result_line() {
    let mut out = CrawlOutput::new();
    assert!(out.finish().is_err());
    assert_eq!(out.finish().unwrap_err(), "No result from crawler");
    assert!(out.feed_line("=== RESULT ===").is_none());
    assert!(out.feed_line("{\"a\":1}").is_none());
    assert!(out.feed_line("Crawling: https://later").is_none());
    assert_eq!(out.finish().unwrap(), "Crawling: https://later");
    assert!(out.feed_line("{\"b\":2}").is_none());
    assert_eq!(out.finish().unwrap(), "{\"b\":2}");
}

#[test]
fn pre_crawl_output_parses_discovery_lines() {
    let mut out = PreCrawlOutput::new();
    let (pre, log) = out.feed_line("[pre-crawl] depth=2 found=15 (doc) https://x.y/z");
    let pre = pre.unwrap();
    assert_eq!((pre.depth, pre.found, pre.is_doc), (2, 15, true));
    assert_eq!(pre.url, "https://x.y/z");
    let log = log.unwrap();
    assert_eq!(log.line, "[pre-crawl] depth=2 found=15 (doc) https://x.y/z");
    assert_eq!(log.status, "info");
    assert_eq!(log.url, "");

    let (pre, _) = out.feed_line("[pre-crawl] depth=x found= last");
    let pre = pre.unwrap();
    assert_eq!((pre.depth, pre.found, pre.is_doc), (0, 0, false));
    assert_eq!(pre.url, "");

    let (pre, log) = out.feed_line("plain line");
    assert!(pre.is_none());
    assert_eq!(log.unwrap().line, "plain line");
}

#[test]
fn pre_crawl_output_finish() {
    let mut out = PreCrawlOutput::new();
    assert_eq!(out.finish(false).unwrap_err(), "Pre-crawl process failed");
    assert_eq!(out.finish(true).unwrap_err(), "No result from pre-crawl");
    let (a, b) = out.feed_line("=== RESULT ===");
    assert!(a.is_none() && b.is_none());
    let (a, b) = out.feed_line("{\"total\":3}");
    assert!(a.is_none() && b.is_none());
    assert_eq!(out.finish(false).unwrap(), "{\"total\":3}");
}

#[test]
fn sidecar_finds_first_existing_script() {
    let s = CrawlerSidecar::new(false, &vec![false, true, true]).unwrap();
    assert_eq!(s.python_path, "python3");
    assert_eq!(s.crawler_script, "../../python/crawler.py");
    let s = CrawlerSidecar::new(true, &vec![false, false, false, true]).unwrap();
    assert_eq!(s.python_path, "python.exe");
    assert_eq!(s.crawler_script, "python/crawler.py");
    let e = CrawlerSidecar::new(false, &vec![]).err().unwrap();
    assert_eq!(e, "爬虫脚本不存在: \"python/crawler.py\"");
    assert_eq!(CrawlerSidecar::script_candidates().len(), 4);
}

#[test]
fn config_yaml_text() {
    let config = CrawlerConfig {
        urls: vec!["https://a.cn".to_string(), "https://b.cn".to_string()],
        file_extensions: vec![".pdf".to_string()],
        content_format: "markdown".to_string(),
        output_dir: "./output".to_string(),
        delay: "0.5".to_string(),
        max_depth: 2,
        min_year: 2024,
    };
    let y = CrawlerSidecar::generate_config_yaml(&config);
    assert_eq!(
        y,
        "crawler:\n  urls:\n    - https://a.cn\n    - https://b.cn\n  file_extensions:\n    - .pdf\n  content_format: markdown\n  output_dir: ./output\n  delay: 0.5\n  max_depth: 2\n  min_year: 2024\n"
    );
    let empty = CrawlerConfig { urls: vec![], file_extensions: vec![], ..config };
    let y = CrawlerSidecar::generate_config_yaml(&empty);
    assert_eq!(
        y,
        "crawler:\n  urls: []\n  file_extensions: []\n  content_format: markdown\n  output_dir: ./output\n  delay: 0.5\n  max_depth: 2\n  min_year: 2024\n"
    );
}

#[test]
fn config_yaml_documented_example() {
    let config = CrawlerConfig {
        urls: vec!["https://example.com".to_string()],
        file_extensions: vec![".pdf".to_string(), ".doc".to_string(), ".docx".to_string()],
        content_format: "markdown".to_string(),
        output_dir: "./output".to_string(),
        delay: "0.5".to_string(),
        max_depth: 1,
        min_year: 2025,
    };
    assert_eq!(
        CrawlerSidecar::generate_config_yaml(&config),
        "crawler:\n  urls:\n    - https://example.com\n  file_extensions:\n    - .pdf\n    - .doc\n    - .docx\n  content_format: markdown\n  output_dir: ./output\n  delay: 0.5\n  max_depth: 1\n  min_year: 2025\n"
    );
}

#[test]
fn pre_crawl_summary_message() {
    let r = pre_crawl_summary(PreCrawlResult::from_record(3, 2, vec!["https://u".to_string()]));
    assert!(r.success);
    assert_eq!(r.new_files, vec!["https://u".to_string()]);
    assert!(r.updated_files.is_empty() && r.deleted_files.is_empty());
    assert_eq!(r.message, "发现 3 个URL，最大深度 2");
    let r = pre_crawl_summary(PreCrawlResult::from_record(0, 0, vec![]));
    assert!(!r.success);
    assert_eq!(r.message, "发现 0 个URL，最大深度 0");
    let rec = PreCrawlResult::from_record(5, 1u64 << 32, vec![]);
    assert_eq!(rec.max_depth, 0);
    assert_eq!(rec.total, 5);
}

#[test]
fn pre_crawl_record_fields() {
    let rec = PreCrawlResult::from_fields(
        Some(4),
        None,
        Some(vec![Some("https://a".to_string()), None, Some("https://b".to_string())]),
    );
    assert_eq!((rec.total, rec.max_depth), (4, 0));
    assert_eq!(rec.urls, vec!["https://a".to_string(), "https://b".to_string()]);
    let rec = PreCrawlResult::from_fields(None, Some(3), None);
    assert_eq!((rec.total, rec.max_depth, rec.urls.len()), (0, 3, 0));
}

#[test]
fn pre_crawl_outcome_of_records() {
    let r = pre_crawl_outcome(r#"{"total": 3, "max_depth": 2, "urls": ["https://u", 1, "https://v"]}"#)
        .unwrap();
    assert!(r.success);
    assert_eq!(r.new_files, vec!["https://u".to_string(), "https://v".to_string()]);
    assert!(r.updated_files.is_empty() && r.deleted_files.is_empty());
    assert_eq!(r.message, "发现 3 个URL，最大深度 2");
    let r = pre_crawl_outcome("{\"total\": -1, \"urls\": \"x\"}").unwrap();
    assert!(!r.success);
    assert!(r.new_files.is_empty());
    assert_eq!(r.message, "发现 0 个URL，最大深度 0");
    let e = match pre_crawl_outcome("not json") {
        Err(e) => e,
        Ok(_) => panic!("a record that is not JSON is an error"),
    };
    let parse_error = serde_json::from_str::<serde_json::Value>("not json").unwrap_err().to_string();
    assert_eq!(e, format!("解析预爬虫输出失败: {}", parse_error));
}

#[test]
fn sidecar_output_collects_record() {
    let mut out = SidecarOutput::new();
    assert_eq!(out.feed_line("log line").as_deref(), Some("log line"));
    assert!(out.feed_line("xx === RESULT === yy").is_none());
    assert!(out.feed_line("{").is_none());
    assert!(out.feed_line("}").is_none());
    assert_eq!(out.result_json, "{\n}\n");
    assert!(out.in_result);
}

#[test]
fn run_without_result_outcomes() {
    assert_eq!(
        run_without_result(true, false, Some(-1)).err().unwrap(),
        "预爬虫执行失败，返回码: Some(-1)"
    );
    assert_eq!(run_without_result(false, false, None).err().unwrap(), "爬虫执行失败，返回码: None");
    assert_eq!(
        run_without_result(false, false, Some(143)).err().unwrap(),
        "爬虫执行失败，返回码: Some(143)"
    );
    let ok = run_without_result(false, true, None).ok().unwrap();
    assert!(!ok.success);
    assert_eq!(ok.message, "未能解析爬虫结果");
    let ok = run_without_result(true, true, Some(0)).ok().unwrap();
    assert_eq!(ok.message, "未能解析预爬虫结果");
}
