use dpcrawler::gui::{
    file_display_name, file_status_label, is_system_dark_mode, is_system_dark_mode_macos, is_system_dark_mode_windows, DPCrawlerDemo, Rgba, RunMode,
    ThemeMode, ThemePalette,
};
use dpcrawler::preview::{preview_blocks, PreviewBlock};
use dpcrawler::sidecar::CrawlerSidecar;

fn names(files: &[(String, String, String)]) -> Vec<String> {
    files.iter().map(|f| f.0.clone()).collect()
}

fn crawler() -> Option<CrawlerSidecar> {
    Some(CrawlerSidecar {
        python_path: "python3".to_string(),
        crawler_script: "python/crawler.py".to_string(),
    })
}

#[test]
fn new_state_shows_demo_content() {
    let d = DPCrawlerDemo::new(None);
    assert_eq!(d.urls, "https://www.example.gov.cn");
    assert_eq!(d.extensions.len(), 8);
    assert_eq!(d.sites.len(), 2);
    assert!(d.run_mode == RunMode::Idle);
    assert!(d.theme_mode == ThemeMode::Auto);
    assert_eq!(d.preview, "单击左侧文件即可预览内容");
    assert_eq!(d.progress_text, "准备就绪");
}

#[test]
fn visible_files_sorted_by_status() {
    let mut d = DPCrawlerDemo::new(None);
    d.files = vec![
        ("s/e".to_string(), "error".to_string(), "u".to_string()),
        ("s/x".to_string(), "other".to_string(), "u".to_string()),
        ("s/u".to_string(), "unchanged".to_string(), "u".to_string()),
        ("s/n1".to_string(), "new".to_string(), "u".to_string()),
        ("t/p".to_string(), "updated".to_string(), "u".to_string()),
        ("s/n2".to_string(), "new".to_string(), "u".to_string()),
    ];
    let v = d.visible_files();
    assert_eq!(names(&v), vec!["s/n1", "s/n2", "t/p", "s/u", "s/e", "s/x"]);
    d.active_site = Some("s".to_string());
    let v = d.visible_files();
    assert_eq!(names(&v), vec!["s/n1", "s/n2", "s/u", "s/e", "s/x"]);
}

#[test]
fn selecting_a_site_fills_the_form() {
    let mut d = DPCrawlerDemo::new(None);
    d.apply_active_site_to_form("hrss.sz.gov.cn");
    assert_eq!(d.active_site.as_deref(), Some("hrss.sz.gov.cn"));
    assert_eq!(d.urls, "https://hrss.sz.gov.cn");
    assert_eq!(d.delay, "300ms");
    assert_eq!(d.max_depth, "2 层");
    assert_eq!(d.min_year, "2024 年");
    assert_eq!(d.progress_permille, 1000);
    assert_eq!(d.progress_text, "hrss.sz.gov.cn: 508 个文件");
    assert_eq!((d.total_count, d.unchanged_count, d.new_count), (508, 508, 0));
    assert_eq!(names(&d.visible_files()), vec!["hrss.sz.gov.cn/招生简章"]);

    d.apply_active_site_to_form("unknown.site");
    assert_eq!(d.delay, "500ms");
    assert_eq!(d.progress_text, "unknown.site: 0 个文件");
    assert_eq!(d.total_count, 0);
}

#[test]
fn form_fields_read_as_numbers() {
    let mut d = DPCrawlerDemo::new(None);
    assert_eq!(d.parse_max_depth(), 1);
    assert_eq!(d.parse_min_year(), 2025);
    d.max_depth = "  7 levels".to_string();
    d.min_year = "".to_string();
    assert_eq!(d.parse_max_depth(), 7);
    assert_eq!(d.parse_min_year(), 2025);
    d.max_depth = "abc".to_string();
    d.min_year = "-5".to_string();
    assert_eq!(d.parse_max_depth(), 1);
    assert_eq!(d.parse_min_year(), 2025);
    d.min_year = "不限".to_string();
    assert_eq!(d.parse_min_year(), 2025);
    d.min_year = "2023 年".to_string();
    assert_eq!(d.parse_min_year(), 2023);
    d.extensions[1].1 = false;
    d.extensions[7].1 = false;
    assert_eq!(d.parse_extensions(), vec![".pdf", ".docx", ".xls", ".xlsx", ".ppt", ".pptx"]);
}

#[test]
fn begin_without_crawler_only_logs() {
    let mut d = DPCrawlerDemo::new(None);
    let before = d.logs.clone();
    d.begin_crawl("0.5");
    assert_eq!(d.logs, format!("{}[ERROR] 爬虫不可用，请检查 Python 环境\n", before));
    assert!(!d.is_running);
    assert!(d.run_mode == RunMode::Idle);
    d.begin_pre_crawl("0.5");
    assert!(!d.is_running);
}

#[test]
fn begin_crawl_restarts_log_and_counters() {
    let mut d = DPCrawlerDemo::new(crawler());
    d.new_count = 4;
    d.begin_crawl("0.5");
    assert!(d.is_running);
    assert!(d.run_mode == RunMode::Crawling);
    assert!(d.status_active);
    assert_eq!(d.status_text, "爬取中...");
    assert_eq!(d.progress_text, "0 / ?");
    assert_eq!(d.new_count, 0);
    assert_eq!(
        d.logs,
        "[*] 开始爬取...\n[*] 目标URL: https://www.example.gov.cn\n[*] 配置: .pdf,.doc,.docx,.xls,.xlsx,.ppt,.pptx,.csv 文件类型, max_depth=1, delay=0.5s\n[*] 爬虫已启动，等待结果...\n"
    );
}

#[test]
fn begin_pre_crawl_and_stop() {
    let mut d = DPCrawlerDemo::new(crawler());
    d.extensions = vec![(".pdf".to_string(), true), (".doc".to_string(), false)];
    d.max_depth = "3 层".to_string();
    d.begin_pre_crawl("1.5");
    assert!(d.run_mode == RunMode::PreCrawl);
    assert_eq!(d.status_text, "预爬中...");
    assert_eq!(d.progress_text, "正在发现 URL...");
    assert_eq!(
        d.logs,
        "[*] 全站预爬开始...\n[*] 目标URL: https://www.example.gov.cn\n[*] 配置: .pdf 文件类型, max_depth=3, delay=1.5s\n"
    );
    d.stop_current_task();
    assert!(!d.is_running);
    assert!(d.run_mode == RunMode::Idle);
    assert!(!d.status_active);
    assert_eq!(d.status_text, "已停止");
    assert!(d.logs.ends_with("[20:16:50] 正在停止...\n[20:16:51] 已停止\n"));
}

#[test]
fn crawler_config_from_form() {
    let d = DPCrawlerDemo::new(None);
    let c = d.crawler_config("0.5");
    assert_eq!(c.urls, vec!["https://www.example.gov.cn".to_string()]);
    assert_eq!(c.file_extensions.len(), 8);
    assert_eq!((c.max_depth, c.min_year), (1, 2025));
    assert_eq!(c.delay, "0.5");
    assert_eq!(c.output_dir, "./output");
}

#[test]
fn clear_results_of_selected_site() {
    let mut d = DPCrawlerDemo::new(None);
    d.apply_active_site_to_form("www.example.gov.cn");
    d.selected_file = "x".to_string();
    d.clear_results();
    assert_eq!(names(&d.files), vec!["hrss.sz.gov.cn/招生简章"]);
    assert_eq!(d.sites.len(), 1);
    assert_eq!(d.sites[0].0, "hrss.sz.gov.cn");
    assert!(d.active_site.is_none());
    assert!(d.logs.ends_with("[20:16:20] 已清空站点结果: www.example.gov.cn\n"));
    assert_eq!(d.selected_file, "");
    assert_eq!(d.total_count, 0);
    assert_eq!(d.status_text, "就绪");
    for f in &d.files {
        assert!(!f.0.starts_with("www.example.gov.cn/"));
    }
}

#[test]
fn clear_results_of_everything() {
    let mut d = DPCrawlerDemo::new(None);
    d.clear_results();
    assert!(d.files.is_empty());
    assert!(d.sites.is_empty());
    assert!(d.logs.ends_with("[20:16:20] 已清空全部结果\n"));
}

#[test]
fn delete_site_keeps_the_others() {
    let mut d = DPCrawlerDemo::new(None);
    d.apply_active_site_to_form("hrss.sz.gov.cn");
    d.preview = "p".to_string();
    d.delete_site("www.example.gov.cn");
    assert_eq!(names(&d.files), vec!["hrss.sz.gov.cn/招生简章"]);
    assert_eq!(d.active_site.as_deref(), Some("hrss.sz.gov.cn"));
    assert_eq!(d.preview, "p");
    assert!(d.logs.ends_with("[20:16:22] 已删除站点: www.example.gov.cn\n"));
    d.delete_site("hrss.sz.gov.cn");
    assert!(d.files.is_empty());
    assert!(d.sites.is_empty());
    assert!(d.active_site.is_none());
    assert_eq!(d.preview, "单击左侧文件即可预览内容");
}

#[test]
fn selecting_a_file_builds_its_preview() {
    let mut d = DPCrawlerDemo::new(None);
    d.select_file("site/x", "new", "https://u");
    assert_eq!(d.selected_file, "site/x");
    assert_eq!(
        d.preview,
        "# site/x\n\n来源状态：新增\n来源链接：https://u\n\n这是 site/x 的预览内容。\n\n- 采集时间：2026-04-09\n- 内容格式：Markdown\n- 抽取状态：已完成\n\n| 字段 | 值 |\n| --- | --- |\n| 标题 | site/x |\n| 分类 | 政策通知 |\n| 标签 | RAG / 爬虫 / 文档 |\n"
    );
}

#[test]
fn preview_blocks_of_file_preview() {
    let mut d = DPCrawlerDemo::new(None);
    d.select_file("site/x", "new", "https://u");
    let blocks = preview_blocks(&d.preview);
    assert_eq!(blocks.len(), 12);
    assert!(matches!(&blocks[0], PreviewBlock::Title(t) if t == "site/x"));
    assert!(matches!(&blocks[1], PreviewBlock::Space));
    assert!(matches!(&blocks[2], PreviewBlock::Text(t, true) if t == "来源状态：新增"));
    assert!(matches!(&blocks[3], PreviewBlock::SourceLink(u) if u == "https://u"));
    assert!(matches!(&blocks[5], PreviewBlock::Text(t, false) if t == "这是 site/x 的预览内容。"));
    assert!(matches!(&blocks[7], PreviewBlock::Bullet(t) if t == "采集时间：2026-04-09"));
    match &blocks[11] {
        PreviewBlock::Table(rows) => {
            assert_eq!(rows.len(), 4);
            assert_eq!(rows[0], vec!["字段", "值"]);
            assert_eq!(rows[1], vec!["标题", "site/x"]);
            assert_eq!(rows[3], vec!["标签", "RAG / 爬虫 / 文档"]);
        }
        _ => panic!("expected a table"),
    }
}

#[test]
fn preview_table_needs_a_following_line() {
    let blocks = preview_blocks("| a | b |");
    assert_eq!(blocks.len(), 1);
    assert!(matches!(&blocks[0], PreviewBlock::Text(t, false) if t == "| a | b |"));
    let blocks = preview_blocks("||| x | y ||\n|-|\nafter");
    assert!(matches!(&blocks[0], PreviewBlock::Text(..)));
    let blocks = preview_blocks("| x |  y |\n|-|\nafter");
    assert_eq!(blocks.len(), 2);
    match &blocks[0] {
        PreviewBlock::Table(rows) => assert_eq!(rows, &vec![vec!["x".to_string(), "y".to_string()]]),
        _ => panic!("expected a table"),
    }
    assert!(matches!(&blocks[1], PreviewBlock::Text(t, false) if t == "after"));
}

#[test]
fn file_names_and_labels() {
    assert_eq!(file_display_name("a/b/c"), "b/c");
    assert_eq!(file_display_name("abc"), "abc");
    assert_eq!(file_status_label("new"), "新增");
    assert_eq!(file_status_label("updated"), "更新");
    assert_eq!(file_status_label("error"), "未变");
}

#[test]
fn theme_palettes() {
    assert!(is_system_dark_mode(Some("Adwaita:dark".to_string())));
    assert!(!is_system_dark_mode(Some("Adwaita".to_string())));
    assert!(!is_system_dark_mode(None));
    assert!(is_system_dark_mode_macos(Some("Dark\n".to_string())));
    assert!(!is_system_dark_mode_macos(Some("dark".to_string())));
    assert!(!is_system_dark_mode_macos(None));
    assert!(is_system_dark_mode_windows(Some(0)));
    assert!(!is_system_dark_mode_windows(Some(1)));
    assert!(!is_system_dark_mode_windows(None));
    let p = ThemePalette::get_palette(ThemeMode::Auto, true);
    assert!(p == ThemePalette::dark());
    assert!(p.bg == Rgba { r: 15, g: 23, b: 42, a: 255 });
    let l = ThemePalette::get_palette(ThemeMode::Auto, false);
    assert!(l == ThemePalette::light());
    assert!(ThemePalette::get_palette(ThemeMode::Dark, false) == ThemePalette::dark());
    assert!(l.selected == Rgba { r: 37, g: 99, b: 235, a: 77 });
}
