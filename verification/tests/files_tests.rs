use dpcrawler::catalog::{
    cache_key, index_documents, is_markdown_path, site_relative_path_exec, strip_front_matter_exec,
    LoadedDoc,
};
use dpcrawler::paths::{
    content_file_path, data_dir, dev_project_root, get_processed_file_path_core, is_dev_mode,
    open_target, pre_crawl_file_name, resolve_path,
};
use dpcrawler::sites::{
    list_sites, merge_index, merge_index_texts, prefixed_name, site_index_core_entries,
    site_index_core_from_texts, site_index_entries, site_index_from_text, tree_of_index, SiteProbe,
};

fn strings(v: &[&str]) -> Vec<String> {
    v.iter().map(|s| s.to_string()).collect()
}

#[test]
fn project_root_and_dev_mode() {
    assert_eq!(dev_project_root("/home/u/proj/src-tauri"), "/home/u/proj");
    assert_eq!(dev_project_root("/home/u/proj"), "/home/u/proj");
    assert_eq!(dev_project_root("/home/u/my-src-tauri"), "/home/u/my-src-tauri");
    assert!(is_dev_mode("/p/src-tauri", &strings(&["/p/python/crawler.py"])));
    assert!(!is_dev_mode("/p", &strings(&["/q/python/crawler.py"])));
}

#[test]
fn data_directory_choice() {
    assert_eq!(data_dir(true, "/p/src-tauri", false, Some("/home/u".into()), None), "/p");
    assert_eq!(data_dir(false, "/cwd", false, Some("/home/u".into()), None), "/home/u/.config/dpcrawler");
    assert_eq!(data_dir(false, "/cwd", false, None, Some("/appdata".into())), "/tmp/.config/dpcrawler");
    assert_eq!(data_dir(false, "/cwd", true, Some("/home/u".into()), Some("/appdata".into())), "/appdata/dpcrawler");
    assert_eq!(data_dir(false, "/cwd", true, None, None), "./dpcrawler");
    assert_eq!(resolve_path("/d", "output"), "/d/output");
    assert_eq!(resolve_path("/d", "/abs/x"), "/abs/x");
}

#[test]
fn processed_file_first_existing_extension() {
    let existing = strings(&["/d/output/site/docs/page.pdf", "/d/output/site/docs/page.html"]);
    assert_eq!(
        get_processed_file_path_core("/d", "output", "site/page", &existing).unwrap(),
        "/d/output/site/docs/page.html"
    );
    assert_eq!(
        get_processed_file_path_core("/d", "output", "page", &strings(&["/d/output/docs/page.md"])).unwrap(),
        "/d/output/docs/page.md"
    );
    assert_eq!(
        get_processed_file_path_core("/d", "output", "site/page", &vec![]).unwrap_err(),
        "Processed file not found: site/page"
    );
}

#[test]
fn content_file_prefers_each_extension_in_turn() {
    let existing = strings(&["/d/out/site/docs/page.html", "/d/out/site/page.md"]);
    assert_eq!(content_file_path("/d", "out", "site/page", &existing).unwrap(), "/d/out/site/page.md");
    let existing = strings(&["/d/out/site/docs/page.md", "/d/out/site/page.md"]);
    assert_eq!(content_file_path("/d", "out", "site/page", &existing).unwrap(), "/d/out/site/docs/page.md");
    assert_eq!(content_file_path("/d", "out", "a/b/c", &vec![]).unwrap_err(), "File not found: a/b/c");
}

#[test]
fn open_targets() {
    assert_eq!(open_target("/d", "https://x.cn/a"), "https://x.cn/a");
    assert_eq!(open_target("/d", "http://x"), "http://x");
    assert_eq!(open_target("/d", "./output/a.html"), "/d/output/a.html");
    assert_eq!(open_target("/d", "rel/b"), "/d/rel/b");
}

#[test]
fn pre_crawl_file_names() {
    let cfg = "crawler:\n  urls:\n  - https://www.a.cn/x?y=1\n  - https://b.cn\n".to_string();
    assert_eq!(pre_crawl_file_name(Some(cfg)), ".pre_crawl_https___www_a_cn_x_y_1.json");
    assert_eq!(pre_crawl_file_name(None), ".pre_crawl_unknown.json");
    assert_eq!(pre_crawl_file_name(Some("no list here".into())), ".pre_crawl_unknown.json");
    assert_eq!(pre_crawl_file_name(Some("--- 中文-站_点\n".into())), ".pre_crawl_中文-站_点.json");
}

fn probe(name: &str, index_exists: bool, entries: Option<usize>, docs: Option<usize>, config: bool) -> SiteProbe {
    let text = if index_exists {
        Some(match entries {
            Some(n) => {
                let members: Vec<String> = (0..n).map(|i| format!("\"p{}\":{{}}", i)).collect();
                format!("{{\"file_tree\":{{{}}},\"last_updated\":\"2026-04-07\"}}", members.join(","))
            }
            None => "not json".to_string(),
        })
    } else {
        None
    };
    SiteProbe::from_index(name.to_string(), index_exists, text, docs, config)
}

#[test]
fn site_probe_reads_the_index_text() {
    let p = SiteProbe::from_index(
        "s".into(),
        true,
        Some(r#"{"file_tree":{"a":{},"b":{"title":"B"}},"last_updated":"2026-04-07 10:00"}"#.into()),
        Some(4),
        true,
    );
    assert_eq!(p.index_entries, Some(2));
    assert_eq!(p.last_updated.as_deref(), Some("2026-04-07 10:00"));
    assert_eq!(p.docs_files, Some(4));
    assert!(p.index_exists && p.has_config);
    let p = SiteProbe::from_index("s".into(), true, Some("{\"file_tree\": [1, 2]}".into()), None, false);
    assert_eq!(p.index_entries, None);
    assert_eq!(p.last_updated, None);
    let p = SiteProbe::from_index("s".into(), true, Some("{\"last_updated\": 7}".into()), None, false);
    assert_eq!((p.index_entries, p.last_updated), (None, None));
    let p = SiteProbe::from_index("s".into(), true, Some("not json".into()), None, false);
    assert_eq!((p.index_entries, p.last_updated), (None, None));
    let p = SiteProbe::from_index("s".into(), false, None, None, false);
    assert_eq!((p.index_entries, p.last_updated), (None, None));
}

#[test]
fn site_list_sorted_and_filtered() {
    let probes = vec![
        probe("b", true, Some(3), None, false),
        probe("empty", false, None, Some(0), false),
        probe("a", false, None, Some(2), false),
        probe("c", true, Some(0), Some(5), false),
        probe("cfg", false, None, None, true),
        probe("broken", true, None, None, false),
    ];
    let list = list_sites(&probes);
    let got: Vec<(String, u32, String)> =
        list.iter().map(|s| (s.name.clone(), s.file_count, s.last_updated.clone())).collect();
    assert_eq!(
        got,
        vec![
            ("a".to_string(), 2, "".to_string()),
            ("b".to_string(), 3, "2026-04-07".to_string()),
            ("broken".to_string(), 0, "".to_string()),
            ("c".to_string(), 5, "2026-04-07".to_string()),
            ("cfg".to_string(), 0, "".to_string()),
        ]
    );
    for w in list.windows(2) {
        assert!(w[0].name <= w[1].name);
    }
}

#[test]
fn site_list_is_stable_and_orders_by_code_point() {
    let probes = vec![
        probe("z", false, None, Some(1), false),
        probe("中", false, None, Some(1), false),
        probe("Z", false, None, Some(1), false),
        probe("z", false, None, Some(2), false),
    ];
    let list = list_sites(&probes);
    let got: Vec<(String, u32)> = list.iter().map(|s| (s.name.clone(), s.file_count)).collect();
    assert_eq!(
        got,
        vec![("Z".to_string(), 1), ("z".to_string(), 1), ("z".to_string(), 2), ("中".to_string(), 1)]
    );
}

fn pairs(v: &[(&str, &str)]) -> Vec<(String, String)> {
    v.iter().map(|(a, b)| (a.to_string(), b.to_string())).collect()
}

#[test]
fn index_keys() {
    assert_eq!(prefixed_name("s", "p"), "s/p");
    assert_eq!(
        site_index_entries("s", &pairs(&[("x", "{\"title\":\"X\"}")]), &strings(&["a.md"])),
        pairs(&[("s/x", "{\"title\":\"X\"}")])
    );
    assert_eq!(
        site_index_entries("s", &vec![], &strings(&["a.md", "b.tar.gz", "c"])),
        pairs(&[
            ("s/a", "{\"source_url\":\"\"}"),
            ("s/b.tar", "{\"source_url\":\"\"}"),
            ("s/c", "{\"source_url\":\"\"}"),
        ])
    );
}

#[test]
fn site_index_from_index_text() {
    let text = Some(r#"{"file_tree": {"q": {"source_url": "u"}, "p": 1}, "total_files": 2}"#.to_string());
    assert_eq!(
        site_index_from_text("s", &text, &strings(&["a.md"])),
        pairs(&[("s/p", "1"), ("s/q", "{\"source_url\":\"u\"}")])
    );
    assert_eq!(
        site_index_from_text("s", &Some("{\"file_tree\": {}}".into()), &strings(&["a.md"])),
        pairs(&[("s/a", "{\"source_url\":\"\"}")])
    );
    assert_eq!(
        site_index_from_text("s", &Some("broken".into()), &strings(&["b.html"])),
        pairs(&[("s/b", "{\"source_url\":\"\"}")])
    );
    assert_eq!(site_index_from_text("s", &None, &vec![]), vec![]);
    assert_eq!(tree_of_index(&Some("{\"file_tree\":{\"k\":[1, 2]}}".into())), pairs(&[("k", "[1,2]")]));
    assert_eq!(tree_of_index(&Some("[]".into())), vec![]);
}

#[test]
fn merged_index_keeps_site_keys_first() {
    let sites = vec![
        ("s1".to_string(), pairs(&[("a", "1"), ("b", "2")])),
        ("s2".to_string(), pairs(&[("c", "3")])),
    ];
    let merged = merge_index(&sites, &pairs(&[("s1/a", "9"), ("z", "8")]));
    assert_eq!(merged, pairs(&[("s1/a", "1"), ("s1/b", "2"), ("s2/c", "3"), ("z", "8")]));
}

#[test]
fn merged_index_from_texts() {
    let sites = vec![
        ("s1".to_string(), Some(r#"{"file_tree":{"b":{"title":"B"},"a":{}}}"#.to_string())),
        ("s2".to_string(), Some("not json".to_string())),
        ("s3".to_string(), None),
        ("s4".to_string(), Some(r#"{"file_tree":{"c":"x"}}"#.to_string())),
    ];
    let root = Some(r#"{"file_tree":{"s1/a":{"old":true},"legacy":{}}}"#.to_string());
    assert_eq!(
        merge_index_texts(&sites, &root),
        pairs(&[
            ("s1/a", "{}"),
            ("s1/b", "{\"title\":\"B\"}"),
            ("s4/c", "\"x\""),
            ("legacy", "{}"),
        ])
    );
    assert_eq!(merge_index_texts(&vec![], &None), vec![]);
}

#[test]
fn site_index_for_search() {
    let meta = vec![
        ("x.json".to_string(), Some("{}".to_string())),
        ("y.txt".to_string(), Some("1".to_string())),
        (".json".to_string(), Some("2".to_string())),
        ("a.b.json".to_string(), Some("3".to_string())),
        ("bad.json".to_string(), None),
    ];
    let r = site_index_core_entries("s", false, &vec![], &meta).unwrap();
    assert_eq!(r, pairs(&[("s/x", "{}"), ("s/a.b", "3")]));
    let r = site_index_core_entries("s", true, &pairs(&[("p", "1"), ("q", "2")]), &meta).unwrap();
    assert_eq!(r, pairs(&[("s/p", "1"), ("s/q", "2")]));
    assert_eq!(
        site_index_core_entries("s", true, &vec![], &meta).unwrap_err(),
        "No index found for site: s"
    );
}

#[test]
fn site_index_for_search_from_texts() {
    let meta = pairs(&[("x.json", "{ \"a\" : 1 }"), ("y.json", "not json"), ("z.txt", "{}")]);
    assert_eq!(
        site_index_core_from_texts("s", false, &None, &meta).unwrap(),
        pairs(&[("s/x", "{\"a\":1}")])
    );
    let text = Some(r#"{"file_tree":{"p":{"title":"P"}}}"#.to_string());
    assert_eq!(
        site_index_core_from_texts("s", true, &text, &meta).unwrap(),
        pairs(&[("s/p", "{\"title\":\"P\"}")])
    );
    assert_eq!(
        site_index_core_from_texts("s", true, &None, &meta).unwrap_err(),
        "No index found for site: s"
    );
    assert_eq!(
        site_index_core_from_texts("s", false, &None, &pairs(&[("y.json", "oops")])).unwrap_err(),
        "No index found for site: s"
    );
}

#[test]
fn document_metadata_from_its_index_entry() {
    let d = LoadedDoc::from_meta(
        "s/a".into(),
        r#"{"title": "标题", "source_url": "http://u"}"#,
        "/x/s/docs/a.md".into(),
        Some("body".into()),
    );
    assert_eq!(d.name, "s/a");
    assert_eq!(d.title.as_deref(), Some("标题"));
    assert_eq!(d.source_url.as_deref(), Some("http://u"));
    assert_eq!(d.path, "/x/s/docs/a.md");
    assert_eq!(d.body.as_deref(), Some("body"));
    let d = LoadedDoc::from_meta("s/b".into(), r#"{"title": 5}"#, "p".into(), None);
    assert_eq!((d.title, d.source_url), (None, None));
    let d = LoadedDoc::from_meta("s/c".into(), "not json", "p".into(), None);
    assert_eq!((d.title, d.source_url), (None, None));
}

#[test]
fn front_matter_is_cut() {
    assert_eq!(strip_front_matter_exec("---\ntitle: x\n---\nBody"), "\nBody");
    assert_eq!(strip_front_matter_exec("```yaml\na: 1\n```\ntext"), "\ntext");
    assert_eq!(strip_front_matter_exec("```ymal\na: 1\n```"), "");
    assert_eq!(strip_front_matter_exec("no front"), "no front");
    assert_eq!(strip_front_matter_exec("---unterminated"), "---unterminated");
    let t = "---\nk: v\n---\n正文";
    assert!(t.ends_with(&strip_front_matter_exec(t)));
}

#[test]
fn documents_indexed_for_search() {
    let docs = vec![
        LoadedDoc {
            name: "s/a".into(),
            title: None,
            source_url: Some("http://u".into()),
            path: "/x/s/docs/a.md".into(),
            body: Some("---\nt: 1\n---\nrust text".into()),
        },
        LoadedDoc {
            name: "s/b".into(),
            title: Some("B".into()),
            source_url: None,
            path: "/x/s/docs/b.pdf".into(),
            body: Some("rust".into()),
        },
        LoadedDoc {
            name: "s/c".into(),
            title: Some("C".into()),
            source_url: None,
            path: "/x/s/docs/c.md".into(),
            body: None,
        },
        LoadedDoc {
            name: "s/d".into(),
            title: Some("D".into()),
            source_url: None,
            path: "/x/s/docs/d.md".into(),
            body: Some("rust again".into()),
        },
    ];
    let idx = index_documents(&docs);
    assert_eq!(idx.num_docs(), 2);
    let (f, t, c, u, p) = idx.doc_fields(0);
    assert_eq!((f.as_str(), t.as_str(), c.as_str(), u.as_str(), p.as_str()), ("docs/a.md", "s/a", "\nrust text", "http://u", "/x/s/docs/a.md"));
    let (f, t, _, u, _) = idx.doc_fields(1);
    assert_eq!((f.as_str(), t.as_str(), u.as_str()), ("docs/d.md", "D", ""));
    assert_eq!(idx.doc_freq(&"rust".to_string()), 2);
    assert_eq!(idx.built_stats(), (4, 2));
    assert!(is_markdown_path("a.md"));
    assert!(!is_markdown_path("a.mdx"));
    assert_eq!(cache_key("out", "s"), "out:s");
}

#[test]
fn hits_are_named_relative_to_the_site_root() {
    assert_eq!(site_relative_path_exec("SiteA/2026年报名简章"), "docs/2026年报名简章.md");
    assert_eq!(site_relative_path_exec("page"), "docs/page.md");
}
