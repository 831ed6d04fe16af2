use web_video_catcher::bilingual::bi;
use web_video_catcher::update::{checked_link, has_update, link_target, update_info, ver_tuple};

#[test]
fn version_tuples() {
    assert_eq!(ver_tuple(" v1.2.3 "), vec![1, 2, 3]);
    assert_eq!(ver_tuple("1.x.+4"), vec![1, 0, 4]);
    assert_eq!(ver_tuple(""), vec![0]);
    assert_eq!(ver_tuple("99999999999999999999.1"), vec![0, 1]);
    assert_eq!(ver_tuple("18446744073709551615"), vec![18446744073709551615]);
}

#[test]
fn newer_versions() {
    assert!(has_update("0.3.1", "v0.3.2"));
    assert!(has_update("0.3", "0.3.0"));
    assert!(!has_update("0.3.0", "0.3"));
    assert!(!has_update("1.0.0", "v0.9.9"));
    assert!(!has_update("1.0.0", ""));
    assert!(!has_update("1.0.0", "1.0.0"));
}

#[test]
fn only_web_links_open() {
    assert_eq!(link_target("  https://a.com/x ").as_deref(), Some("https://a.com/x"));
    assert_eq!(link_target("file:///etc/passwd"), None);
}

#[test]
fn refused_links() {
    assert_eq!(checked_link(" https://a.com/x "), Ok("https://a.com/x".to_string()));
    let refused = Err(bi("不支持的链接, 仅允许 http/https", "Unsupported link, only http/https allowed"));
    assert_eq!(checked_link("file:///C:/x"), refused);
    assert_eq!(checked_link("javascript:alert(1)"), refused);
    assert_eq!(checked_link("HTTP://x"), refused);
}

#[test]
fn release_check_answers() {
    let page = "https://example.com/releases";
    let r = update_info("1.2.0", page, Some(r#"{"tag_name":"v1.10.0","html_url":"https://example.com/r/1.10"}"#));
    assert_eq!((r.current.as_str(), r.latest.as_str(), r.has_update, r.url.as_str()), ("1.2.0", "v1.10.0", true, "https://example.com/r/1.10"));
    let r = update_info("1.2.0", page, Some(r#"{"tag_name":"v1.2.0"}"#));
    assert_eq!((r.latest.as_str(), r.has_update, r.url.as_str()), ("v1.2.0", false, page));
    let r = update_info("1.2.0", page, Some("not json"));
    assert_eq!((r.latest.as_str(), r.has_update, r.url.as_str()), ("", false, page));
    let r = update_info("1.2.0", page, None);
    assert_eq!((r.latest.as_str(), r.has_update, r.url.as_str()), ("", false, page));
}
