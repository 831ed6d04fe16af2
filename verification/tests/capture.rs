use web_video_catcher::capture::{
    acl_warning_reason, browser_choice, capture_item, is_feed_page, is_get_method, open_hint,
    page_id_hit, should_probe, ProbeBudget, PROBE_BUDGET_MAX, WARN_PREFIX, capture_report,
    invalid_capture_url, window_failed, WINDOW_BUILD_ATTEMPTS,
};
use web_video_catcher::schema::{DownloadTask, MediaKind, TaskStatus};
use web_video_catcher::state::AppState;

#[test]
fn probe_budget() {
    let mut b = ProbeBudget::new();
    for _ in 0..PROBE_BUDGET_MAX {
        assert!(b.claim_probe_budget());
    }
    assert!(!b.claim_probe_budget());
    b.reset();
    assert!(b.claim_probe_budget());
}

#[test]
fn feed_pages() {
    assert!(is_feed_page("https://www.tiktok.com/@u/video/123"));
    assert!(is_feed_page("https://www.douyin.com/"));
    assert!(!is_feed_page("https://www.bilibili.com/video/BV1"));
    assert!(page_id_hit("https://www.tiktok.com/@u/video/7123?x", "https://v16/x/7123/y"));
    assert!(!page_id_hit("https://www.tiktok.com/@u/video/7123", "https://v16/x/999"));
    assert!(page_id_hit("https://www.xiaohongshu.com/note/456", "https://cdn/456.mp4"));
    assert!(!page_id_hit("https://www.tiktok.com/@u", "https://v16/x"));
}

#[test]
fn feed_videos_are_limited_per_session() {
    let mut s = AppState::new();
    s.set_capture_page("https://www.tiktok.com/@u/video/7123".to_string());
    assert!(s.admit_captured("https://v16/own/7123/x", MediaKind::Mp4));
    assert!(s.admit_captured("https://v16/a", MediaKind::Mp4));
    assert!(s.admit_captured("https://v16/b", MediaKind::Other));
    assert!(!s.admit_captured("https://v16/c", MediaKind::Mp4));
    assert!(s.admit_captured("https://v16/d", MediaKind::Audio));
    assert!(s.admit_captured("https://v16/own/7123/y", MediaKind::Mp4));
    s.set_capture_page("https://www.bilibili.com/video/BV1".to_string());
    assert!(s.admit_captured("https://v/x", MediaKind::Mp4));
}

#[test]
fn capture_items_and_events() {
    let m = capture_item("https://cdn.x.com/a.mp4", MediaKind::Mp4, "未知".into(), "  ".into(), 7);
    assert_eq!((m.id.as_str(), m.title.as_str(), m.source.as_str()), ("m_7", "cdn.x.com", "cdn.x.com"));
    assert_eq!(m.size_bytes, 0);
    let n = capture_item("https://cdn.x.com/a.mp4", MediaKind::Mp4, "未知".into(), "Page".into(), 8);
    assert_eq!(n.title, "Page");
    assert!(should_probe(MediaKind::Mp4));
    assert!(!should_probe(MediaKind::M3u8));
    assert!(!should_probe(MediaKind::Dash));
    assert!(is_get_method("get"));
    assert!(!is_get_method("POST"));
    let t = format!("{WARN_PREFIX}denied");
    assert_eq!(acl_warning_reason(&t).as_deref(), Some("denied"));
    assert_eq!(acl_warning_reason("Normal title"), None);
    assert!(open_hint(false, true).starts_with("后台捕获已启动"));
    assert!(open_hint(true, false).starts_with("原始窗口已打开"));
    assert_eq!(browser_choice(Some(String::new())), None);
    assert_eq!(browser_choice(Some("chrome".into())).as_deref(), Some("chrome"));
}

#[test]
fn cancelling_and_retrying() {
    let mut s = AppState::new();
    let t = DownloadTask {
        id: "t".into(),
        url: "https://x/a.mp4".into(),
        title: "a".into(),
        out_path: "/d".into(),
        status: TaskStatus::Queued,
        progress_bits: 0,
        speed_bits: 0,
        downloaded: 0,
        total: 0,
        error: String::new(),
        format: None,
        file_path: String::new(),
        pair_url: String::new(),
    };
    s.upsert_task(t);
    assert_eq!(s.retry_request("t"), Some(("https://x/a.mp4".to_string(), String::new(), "/d".to_string())));
    assert!(s.cancel_task("t"));
    assert_eq!(s.status_of("t"), TaskStatus::Cancelled);
    assert!(s.is_cancelled("t"));
    assert!(!s.cancel_task("t"));
    assert!(!s.cancel_task("missing"));
    assert!(s.is_cancelled("missing"));
    assert_eq!(s.retry_request("missing"), None);
    let p = s.proxy_status();
    assert_eq!(p.addr, "127.0.0.1:8888");
    assert!(!p.running && !p.ca_installed);
    s.set_capture_page("https://p.com/x".into());
    assert_eq!(s.capture_referer().as_deref(), Some("https://p.com/"));
}

#[test]
fn reports_of_the_capture_script() {
    assert_eq!(
        capture_report(r#"{"url":"https://a/v.mp4","content_type":"video/mp4","method":"post","host":"a"}"#),
        ("https://a/v.mp4".to_string(), "video/mp4".to_string(), "post".to_string())
    );
    assert_eq!(capture_report(r#"{"url":"u"}"#), ("u".to_string(), String::new(), "GET".to_string()));
    assert_eq!(capture_report("oops"), (String::new(), String::new(), "GET".to_string()));
}

#[test]
fn accepted_reports_become_media() {
    let mut s = AppState::new();
    s.set_capture_page("https://www.site.com/watch/1?x=2".into());
    s.set_capture_title("Clip".into());
    let m = s.accept_report(r#"{"url":"https://cdn.site.com/v/a.mp4?sig=1","content_type":"video/mp4"}"#, 42).unwrap();
    assert_eq!((m.id.as_str(), m.url.as_str(), m.title.as_str(), m.source.as_str()), ("m_42", "https://cdn.site.com/v/a.mp4?sig=1", "Clip", "cdn.site.com"));
    assert_eq!((m.kind, m.size_bytes, m.status.as_str()), (MediaKind::Mp4, 0, "new"));
    assert_eq!(s.media().len(), 1);
    assert_eq!(s.referer_of("https://cdn.site.com/v/a.mp4?sig=1").as_deref(), Some("https://www.site.com/"));
    assert!(s.accept_report(r#"{"url":"https://cdn.site.com/v/a.mp4?sig=2"}"#, 43).is_none());
    assert!(s.accept_report(r#"{"url":"https://cdn.site.com/v/b.mp4","method":"POST"}"#, 44).is_none());
    assert!(s.accept_report(r#"{"url":"  ","content_type":"video/mp4"}"#, 45).is_none());
    assert!(s.accept_report(r#"{"url":"https://site.com/page.html","content_type":"text/html"}"#, 46).is_none());
    assert!(s.accept_report("not json", 47).is_none());
    assert_eq!(s.media().len(), 1);
    let m = s.accept_report(r#"{"url":"https://cdn.site.com/v/b.mp4","method":"get"}"#, 48).unwrap();
    assert_eq!(m.id, "m_48");
    assert_eq!(s.media().len(), 2);
}

#[test]
fn capture_window_errors() {
    assert_eq!(invalid_capture_url("abc"), "URL 无效: abc（需要 http(s):// 开头的完整地址）");
    assert_eq!(window_failed("no display"), "创建捕获窗口失败: no display");
    assert_eq!(WINDOW_BUILD_ATTEMPTS, 3);
}

#[test]
fn referer_of_a_page_without_origin() {
    let mut s = AppState::new();
    assert_eq!(s.capture_referer(), None);
    s.set_capture_page("about:blank".into());
    assert_eq!(s.capture_referer().as_deref(), Some("about:blank"));
    s.set_capture_page("http://h.com".into());
    assert_eq!(s.capture_referer().as_deref(), Some("http://h.com/"));
}
