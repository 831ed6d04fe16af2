use web_video_catcher::schema::{DownloadTask, MediaItem, MediaKind, TaskStatus};
use web_video_catcher::state::{origin_of, AppState, MEDIA_CAP};

fn item(id: &str, url: &str, kind: MediaKind) -> MediaItem {
    MediaItem {
        id: id.to_string(),
        url: url.to_string(),
        title: "t".to_string(),
        source: "s".to_string(),
        kind,
        quality: "未知".to_string(),
        size_bytes: -1,
        status: "new".to_string(),
    }
}

fn task(id: &str, url: &str, status: TaskStatus) -> DownloadTask {
    DownloadTask {
        id: id.to_string(),
        url: url.to_string(),
        title: "t".to_string(),
        out_path: "/tmp".to_string(),
        status,
        progress_bits: 0,
        speed_bits: 0,
        downloaded: 0,
        total: 0,
        error: String::new(),
        format: Some("best".to_string()),
        file_path: String::new(),
        pair_url: String::new(),
    }
}

#[test]
fn new_state_is_empty() {
    let s = AppState::new();
    assert_eq!(s.proxy_addr(), "127.0.0.1:8888");
    assert!(!s.proxy_running());
    assert!(s.media().is_empty());
    assert!(s.tasks().is_empty());
    assert_eq!(s.cookie_browser(), None);
    assert_eq!(s.capture_page_url(), None);
    assert_eq!(s.capture_title(), "");
}

#[test]
fn media_key_ignores_query_fragment_and_trailing_slash() {
    let a = AppState::media_key("https://x.com/a/b.mp4?t=1", MediaKind::Mp4);
    assert_eq!(a, "Mp4|https://x.com/a/b.mp4");
    assert_eq!(AppState::media_key("https://x.com/a/b.mp4#f", MediaKind::Mp4), a);
    assert_eq!(AppState::media_key("https://x.com/dir//", MediaKind::Other), "Other|https://x.com/dir");
    assert_ne!(AppState::media_key("https://x.com/a/b.mp4", MediaKind::Audio), a);
}

#[test]
fn same_link_is_listed_once() {
    let mut s = AppState::new();
    assert!(s.push_media(item("m_1", "https://x.com/a.mp4?sig=1", MediaKind::Mp4)));
    assert!(!s.push_media(item("m_2", "https://x.com/a.mp4?sig=2", MediaKind::Mp4)));
    assert!(s.push_media(item("m_3", "https://x.com/a.mp4", MediaKind::Audio)));
    let m = s.media();
    assert_eq!(m.len(), 2);
    assert_eq!(m[0].id, "m_1");
    assert_eq!(m[1].id, "m_3");
}

#[test]
fn full_list_drops_the_oldest() {
    let mut s = AppState::new();
    for i in 0..MEDIA_CAP {
        assert!(s.push_media(item(&format!("m_{i}"), &format!("https://x.com/{i}.mp4"), MediaKind::Mp4)));
    }
    assert_eq!(s.media().len(), MEDIA_CAP);
    assert!(s.push_media(item("new", "https://x.com/new.mp4", MediaKind::Mp4)));
    let m = s.media();
    assert_eq!(m.len(), MEDIA_CAP);
    assert_eq!(m[0].id, "m_1");
    assert_eq!(m[MEDIA_CAP - 1].id, "new");
    // the dropped link may come back
    assert!(s.push_media(item("again", "https://x.com/0.mp4", MediaKind::Mp4)));
}

#[test]
fn remove_media_keeps_the_rest_in_order() {
    let mut s = AppState::new();
    s.push_media(item("a", "https://x.com/a.mp4", MediaKind::Mp4));
    s.push_media(item("b", "https://x.com/b.mp4", MediaKind::Mp4));
    s.push_media(item("c", "https://x.com/c.mp4", MediaKind::Mp4));
    s.remove_media(&["b".to_string(), "zzz".to_string()]);
    let ids: Vec<String> = s.media().into_iter().map(|m| m.id).collect();
    assert_eq!(ids, vec!["a".to_string(), "c".to_string()]);
    // a removed link can be captured again
    assert!(s.push_media(item("b2", "https://x.com/b.mp4", MediaKind::Mp4)));
    s.clear_media();
    assert!(s.media().is_empty());
}

#[test]
fn set_media_size_updates_the_first_match() {
    let mut s = AppState::new();
    s.push_media(item("a", "https://x.com/a.mp4", MediaKind::Mp4));
    let u = s.set_media_size("a", 1234).unwrap();
    assert_eq!(u.size_bytes, 1234);
    assert_eq!(s.media()[0].size_bytes, 1234);
    assert!(s.set_media_size("nope", 1).is_none());
}

#[test]
fn tasks_read_back_what_was_written() {
    let mut s = AppState::new();
    s.upsert_task(task("t1", "https://x.com/a.mp4", TaskStatus::Queued));
    s.upsert_task(task("t2", "https://x.com/b.mp4", TaskStatus::Queued));
    assert_eq!(s.task("t1").unwrap().url, "https://x.com/a.mp4");
    let mut t = task("t1", "https://x.com/a2.mp4", TaskStatus::Downloading);
    t.downloaded = 7;
    s.upsert_task(t);
    assert_eq!(s.task("t1").unwrap().url, "https://x.com/a2.mp4");
    assert_eq!(s.tasks().len(), 2);
    s.set_status("t2", TaskStatus::Done);
    s.set_error("t2", "boom".to_string());
    s.set_file_path("t2", "/tmp/b.mp4".to_string());
    s.set_title("t2", "b".to_string());
    let t2 = s.task("t2").unwrap();
    assert_eq!(t2.status, TaskStatus::Done);
    assert_eq!(t2.error, "boom");
    assert_eq!(t2.file_path, "/tmp/b.mp4");
    assert_eq!(t2.title, "b");
    assert_eq!(s.status_of("t2"), TaskStatus::Done);
    assert_eq!(s.status_of("missing"), TaskStatus::Failed);
    s.set_status("missing", TaskStatus::Done);
    assert!(s.task("missing").is_none());
    s.remove_task("t1");
    assert!(s.task("t1").is_none());
    s.remove_tasks(&["t2".to_string()]);
    assert!(s.tasks().is_empty());
}

#[test]
fn cancel_marks_read_back() {
    let mut s = AppState::new();
    assert!(!s.is_cancelled("t"));
    s.mark_cancel("t", true);
    assert!(s.is_cancelled("t"));
    s.mark_cancel("t", false);
    assert!(!s.is_cancelled("t"));
}

#[test]
fn capture_session_state() {
    let mut s = AppState::new();
    s.set_capture_title("old".to_string());
    s.set_capture_page("https://www.bilibili.com/video/BV1?p=1".to_string());
    assert_eq!(s.capture_title(), "");
    assert_eq!(s.capture_page_url().unwrap(), "https://www.bilibili.com/video/BV1?p=1");
    assert_eq!(s.capture_page_origin().unwrap(), "https://www.bilibili.com/");
    s.set_referer("https://cdn/x.mp4", "https://page/".to_string());
    assert_eq!(s.referer_of("https://cdn/x.mp4").unwrap(), "https://page/");
    assert_eq!(s.referer_of("https://cdn/y.mp4"), None);
    s.set_cookie_browser(Some("chrome".to_string()));
    assert_eq!(s.cookie_browser().unwrap(), "chrome");
    s.set_proxy_running(true);
    assert!(s.proxy_running());
}

#[test]
fn feed_allowance_is_per_session() {
    let mut s = AppState::new();
    assert!(s.feed_allow());
    assert!(s.feed_allow());
    assert!(!s.feed_allow());
    s.set_capture_page("https://www.tiktok.com/@a".to_string());
    assert!(s.feed_allow());
}

#[test]
fn origin_needs_scheme_and_host() {
    assert_eq!(origin_of("https://a.com/x?y").unwrap(), "https://a.com/");
    assert_eq!(origin_of("https://a.com?y").unwrap(), "https://a.com/");
    assert_eq!(origin_of("://a.com/x"), None);
    assert_eq!(origin_of("https:///x"), None);
    assert_eq!(origin_of("no scheme"), None);
}
