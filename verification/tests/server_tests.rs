use dpcrawler::control::{
    clear_output_message, delete_site_reply, pid_in_file, server_args, stop_reply, ArgsEnd,
};
use dpcrawler::serve::{content_type, highlight_page, requested_file_path, search_output_dir, search_page_path};

fn strings(v: &[&str]) -> Vec<String> {
    v.iter().map(|s| s.to_string()).collect()
}

#[test]
fn stop_and_clear_replies() {
    assert_eq!(stop_reply(0), (false, "No running process".to_string()));
    assert_eq!(stop_reply(42), (true, "Stopping process 42".to_string()));
    assert_eq!(clear_output_message(3), "Cleared contents of 3 directories");
}

#[test]
fn delete_site_replies() {
    assert_eq!(delete_site_reply("s", false, None).unwrap_err(), "Site directory not found");
    assert_eq!(delete_site_reply("s", true, Some("denied".into())).unwrap_err(), "Failed to delete s: denied");
    assert_eq!(delete_site_reply("s", true, None).unwrap(), "Deleted s");
}

#[test]
fn pid_files() {
    assert_eq!(pid_in_file(" 123\n"), Some(123));
    assert_eq!(pid_in_file("+7"), Some(7));
    assert_eq!(pid_in_file("x"), None);
    assert_eq!(pid_in_file(""), None);
}

#[test]
fn server_arguments() {
    let a = server_args(&strings(&["prog", "-p", "9000", "extra"]));
    assert_eq!(a.port, 9000);
    assert_eq!(a.ignored, strings(&["extra"]));
    assert!(a.end == ArgsEnd::Run);

    let a = server_args(&strings(&["prog", "--port", "abc"]));
    assert!(a.end == ArgsEnd::BadPort);
    assert_eq!(a.port, 18088);

    let a = server_args(&strings(&["prog", "zzz", "-h", "-p", "1"]));
    assert!(a.end == ArgsEnd::Help);
    assert_eq!(a.ignored, strings(&["zzz"]));
    assert_eq!(a.port, 18088);

    let a = server_args(&strings(&["prog", "-p"]));
    assert!(a.end == ArgsEnd::Run);
    assert_eq!(a.port, 18088);
    assert!(a.ignored.is_empty());

    assert!(server_args(&strings(&["prog", "-p", "70000"])).end == ArgsEnd::BadPort);
    assert_eq!(server_args(&strings(&["prog", "x", "y"])).port, 18088);
    assert_eq!(server_args(&vec![]).port, 18088);
}

#[test]
fn output_dir_of_a_search() {
    assert_eq!(search_output_dir(None), "output");
    assert_eq!(search_output_dir(Some("  ".into())), "output");
    assert_eq!(search_output_dir(Some("data".into())), "data");
}

#[test]
fn requested_files() {
    assert_eq!(requested_file_path("/d", None, "//site/docs/a.md"), "/d/./output/site/docs/a.md");
    assert_eq!(requested_file_path("/d", Some("out".into()), "site/docs/a.md"), "/d/out/site/docs/a.md");
    assert_eq!(
        requested_file_path("/d", Some("out".into()), "/dpc_search_server.html"),
        "/d/./dpc_search_server.html"
    );
    assert_eq!(search_page_path("/d"), "/d/./dpc_search_server.html");
}

#[test]
fn content_types() {
    assert_eq!(content_type("/d/a.html"), "text/html; charset=utf-8");
    assert_eq!(content_type("/d/a.png"), "image/png");
    assert_eq!(content_type("/d/a.zzzunknown"), "application/octet-stream");
}

#[test]
fn highlight_scripts() {
    let page = "<html><body>hi</body></html>";
    assert!(highlight_page("a.md", page, Some("x".into()), None).is_none());
    assert!(highlight_page("a.html", page, None, None).is_none());
    let h = highlight_page("a.html", page, None, Some("q".into())).unwrap();
    assert!(h.starts_with("<html><body>hi\n<script>"));
    assert!(h.contains("atob(\"cQ==\")"));
    assert!(h.contains("Highlight injection failed"));
    assert!(h.ends_with("</script></body></html>"));
    let b = highlight_page("a.htm", page, Some("ab".into()), Some("q".into())).unwrap();
    assert!(b.contains("atob(\"YWI=\")"));
    assert!(b.contains("Highlight block injection failed"));
    assert!(!b.contains("cQ=="));
    assert_eq!(highlight_page("a.htm", "plain", None, Some("q".into())).unwrap(), "plain");
    let two = highlight_page("a.html", "</body></body>", None, Some("q".into())).unwrap();
    assert_eq!(two.matches("</script></body>").count(), 2);
}
