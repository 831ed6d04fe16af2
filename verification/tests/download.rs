use web_video_catcher::bilingual::bi_part;
use web_video_catcher::download::{
    direct_outcome, first_free_name, output_error, Answer, DirectOutcome, CANCELLED, pair_outcome, rejected_error, response_error, stream_failed,
    PairOutcome, Rejected, bi,
    candidate_name, chosen_out_dir, contains, file_base, guess_ext, is_direct_media, is_stale_part,
    is_youtube, looks_like_media, new_task, origin_of_str, pick_output, sanitize, short_title,
    sniff_ext, task_id, task_title,
};
use web_video_catcher::schema::TaskStatus;
use web_video_catcher::state::AppState;

#[test]
fn youtube_hosts() {
    assert!(is_youtube("https://www.youtube.com/watch?v=1"));
    assert!(is_youtube(" HTTPS://YOUTU.BE/abc "));
    assert!(is_youtube("https://www.youtube-nocookie.com/embed/x"));
    assert!(!is_youtube("https://notyoutube.com/watch"));
    assert!(!is_youtube("youtube.com/watch"));
}

#[test]
fn direct_media_links() {
    assert!(is_direct_media("https://x.com/a/b.MP4?t=1"));
    assert!(is_direct_media("https://v3.douyinvod.com/abc/"));
    assert!(is_direct_media("https://upos.bilivideo.com/x"));
    assert!(!is_direct_media("https://www.youtube.com/watch?v=1"));
    assert!(!is_direct_media("ftp://x.com/a.mp4"));
    assert!(!is_direct_media("https://x.com/a.mp4.html"));
}

#[test]
fn origin_for_headers() {
    assert_eq!(origin_of_str("https://a.com/x").unwrap(), "https://a.com");
    assert_eq!(origin_of_str("a.com/x"), None);
}

#[test]
fn extensions() {
    assert_eq!(guess_ext("https://x.com/a.FLV?x=1", ""), "flv");
    assert_eq!(guess_ext("https://x.com/a", "video/mp2t"), "ts");
    assert_eq!(guess_ext("https://x.com/a", "audio/mpeg"), "m4a");
    assert_eq!(guess_ext("https://x.com/a", ""), "mp4");
    assert_eq!(guess_ext("https://x.com/a.webm", "video/x-flv"), "webm");
}

#[test]
fn sanitized_names() {
    assert_eq!(sanitize("  a/b:c*?.mp4  "), "a_b_c__.mp4");
    assert_eq!(sanitize("..hidden.."), "hidden");
    assert_eq!(sanitize("100%\u{0007}"), "100__");
    let long: String = "字".repeat(100);
    assert_eq!(sanitize(&long).chars().count(), 80);
    assert_eq!(sanitize("   "), "");
}

#[test]
fn short_titles() {
    assert_eq!(short_title("https://x.com/path/video_name.mp4?x=1"), "video_name.mp4");
    assert_eq!(short_title("https://x.com/path/ab/"), "x.com");
    assert_eq!(short_title("https://x.com/abcd1234/"), "abcd1234");
    let long = format!("https://x.com/{}", "a".repeat(70));
    assert_eq!(short_title(&long), "a".repeat(60));
}

#[test]
fn byte_search() {
    assert!(contains(b"xxwebmyy", b"webm"));
    assert!(!contains(b"web", b"webm"));
    assert!(contains(b"webm", b"webm"));
}

#[test]
fn sniffed_formats() {
    assert_eq!(sniff_ext(b"\0\0\0\x20ftypisom"), Some("mp4"));
    assert_eq!(sniff_ext(b"FLV\x01\x05"), Some("flv"));
    assert_eq!(sniff_ext(b"\x1a\x45\xdf\xa3....webm"), Some("webm"));
    assert_eq!(sniff_ext(b"\x1a\x45\xdf\xa3....matroska"), Some("mkv"));
    assert_eq!(sniff_ext(b"\x47\x40\x00\x10"), Some("ts"));
    assert_eq!(sniff_ext(b"<htm"), None);
    assert_eq!(sniff_ext(b"FLV"), None);
}

#[test]
fn media_or_page() {
    assert!(!looks_like_media(100, b"\x00\x01"));
    assert!(!looks_like_media(4096, b"{\"error\":403}\r\n"));
    // a space is not a graphic character
    assert!(looks_like_media(4096, b"<!DOCTYPE html>"));
    assert!(looks_like_media(4096, b"\x00\x00\x00\x20ftyp"));
    assert!(!looks_like_media(4096, b""));
}

#[test]
fn outputs_and_parts() {
    assert!(is_stale_part("task_1", "task_1__dl.mp4.PART"));
    assert!(!is_stale_part("task_1", "task_2__dl.mp4.part"));
    let names = vec![
        "task_1__a.mp4.part".to_string(),
        "task_1__a.mp4".to_string(),
        "other.mp4".to_string(),
        "task_1__b.mkv".to_string(),
        "task_1__c.webm".to_string(),
    ];
    let lens = vec![900, 10, 999, 50, 50];
    assert_eq!(pick_output("task_1", &names, &lens), Some(3));
    assert_eq!(pick_output("task_9", &names, &lens), None);
}

#[test]
fn file_names() {
    assert_eq!(file_base("Page: Title", None, "https://x.com/a", "raw"), "Page_ Title");
    assert_eq!(file_base("  ", Some("fallback".to_string()), "https://x.com/a", "raw"), "fallback");
    assert_eq!(file_base("", None, "https://x.com/a", "raw"), "x.com");
    assert_eq!(file_base("", Some("...".to_string()), "https://x.com/a", "task_1__x"), "task_1__x");
    assert_eq!(candidate_name("clip", "mp4", 0), "clip.mp4");
    assert_eq!(candidate_name("clip", "mp4", 12), "clip (12).mp4");
}

#[test]
fn starting_tasks() {
    assert_eq!(task_id(1700000000123), "task_1700000000123");
    assert_eq!(chosen_out_dir("  /tmp/x "), Some("/tmp/x".to_string()));
    assert_eq!(chosen_out_dir("   "), None);
    assert_eq!(task_title("  ".to_string(), "https://x.com/abcd.mp4"), "abcd.mp4");
    assert_eq!(task_title("标题".to_string(), "https://x.com/abcd.mp4"), "标题");
    let t = new_task("t".into(), "u".into(), "ti".into(), "d".into(), Some("best".into()), "".into());
    assert_eq!(t.status, TaskStatus::Queued);
    assert_eq!(t.downloaded, 0);
    assert_eq!(t.error, "");
}

#[test]
fn joining_existing_tasks() {
    let mut s = AppState::new();
    let mut t = new_task("t1".into(), "https://x.com/a.mp4".into(), "a".into(), "/d".into(), None, "".into());
    s.upsert_task(t.clone());
    assert_eq!(s.active_task_for("https://x.com/a.mp4"), Some("t1".to_string()));
    assert_eq!(s.active_task_for("https://x.com/b.mp4"), None);
    t.status = TaskStatus::Done;
    t.file_path = "/d/a.mp4".into();
    s.upsert_task(t);
    assert_eq!(s.active_task_for("https://x.com/a.mp4"), None);
    assert_eq!(
        s.finished_tasks_for("https://x.com/a.mp4"),
        vec![("t1".to_string(), "/d/a.mp4".to_string())]
    );
}

#[test]
fn fallback_after_a_failed_direct_download() {
    let mut s = AppState::new();
    assert!(!s.needs_fallback("t1"));
    let t = new_task("t1".into(), "https://x.com/a.mp4".into(), "a".into(), "/d".into(), None, "".into());
    s.upsert_task(t);
    assert!(!s.needs_fallback("t1"));
    s.set_status("t1", TaskStatus::Failed);
    assert!(s.needs_fallback("t1"));
    s.mark_cancel("t1", true);
    assert!(!s.needs_fallback("t1"));
    s.mark_cancel("t1", false);
    assert!(s.needs_fallback("t1"));
}

#[test]
fn response_checks() {
    assert_eq!(response_error(true, 200, "video/mp4"), None);
    assert_eq!(response_error(true, 206, ""), None);
    let e = response_error(false, 404, "video/mp4").unwrap();
    assert_eq!(bi_part(&e).1, "HTTP 404 — Link expired. Please re-capture.");
    let p = response_error(true, 200, "Text/HTML").unwrap();
    assert_eq!(
        bi_part(&p).1,
        "Server returned a web page/text (text/html) instead of video, usually hotlink protection. Re-capture, then play once in the visible window before downloading."
    );
    assert!(bi_part(&p).0.starts_with("服务器返回的是网页/文本(text/html)"));
}

#[test]
fn rejected_files() {
    assert_eq!(bi_part(&rejected_error(Rejected::Merged, 12)).1, "Merged output is abnormal (only 12 bytes), discarded.");
    assert_eq!(bi_part(&rejected_error(Rejected::Merged, 0)).0, "合并产物异常(仅 0 字节), 已丢弃。");
    assert!(bi_part(&rejected_error(Rejected::Direct, 512)).1.starts_with("Only got 512 bytes of non-video content"));
    assert!(bi_part(&rejected_error(Rejected::Stream, 7)).0.starts_with("其中一条流只拿到 7 字节"));
    assert_eq!(output_error(Some(3)), rejected_error(Rejected::YtDlp, 3));
    assert!(bi_part(&output_error(None)).1.starts_with("No output file found"));
}

#[test]
fn stream_failures() {
    let e = stream_failed(true, &bi("超时", "timeout"));
    assert_eq!(bi_part(&e), ("第一条流下载失败: 超时".to_string(), "Failed to download the video stream: timeout".to_string()));
    let e = stream_failed(false, "plain");
    assert_eq!(bi_part(&e), ("第二条流下载失败: plain".to_string(), "Failed to download the audio stream: plain".to_string()));
}

#[test]
fn second_request_joins_the_first() {
    let mut s = AppState::new();
    let id = s.queue_new("https://x.com/a.mp4", "/d", "best", "", 1700000000123);
    assert_eq!(id, "task_1700000000123");
    let t = s.task(&id).unwrap();
    assert_eq!((t.url.as_str(), t.title.as_str(), t.out_path.as_str()), ("https://x.com/a.mp4", "a.mp4", "/d"));
    assert_eq!(t.status, TaskStatus::Queued);
    assert_eq!(t.format.as_deref(), Some("best"));
    assert!(!s.is_cancelled(&id));
    assert_eq!(s.active_task_for("https://x.com/a.mp4"), Some(id.clone()));
    s.set_capture_title("Page".into());
    let id2 = s.queue_new("https://x.com/b.mp4", "/d", "merge", "https://x.com/b.m4a", 5);
    let t2 = s.task(&id2).unwrap();
    assert_eq!((t2.title.as_str(), t2.pair_url.as_str()), ("Page", "https://x.com/b.m4a"));
}

#[test]
fn pair_outcomes() {
    let media = [0u8; 32];
    let text = b"<html>blocked</html>";
    let ok: Result<i64, String> = Ok(10);
    let err: Result<i64, String> = Err("x".into());
    assert!(matches!(pair_outcome(true, &err, &err, 0, text, 0, text), PairOutcome::Cancelled));
    match pair_outcome(false, &err, &ok, 4096, &media, 4096, &media) {
        PairOutcome::Failed(m) => assert_eq!(bi_part(&m).1, "Failed to download the video stream: x"),
        _ => panic!("expected a failure"),
    }
    match pair_outcome(false, &ok, &err, 4096, &media, 4096, &media) {
        PairOutcome::Failed(m) => assert_eq!(bi_part(&m).1, "Failed to download the audio stream: x"),
        _ => panic!("expected a failure"),
    }
    match pair_outcome(false, &ok, &ok, 4096, text, 100, &media) {
        PairOutcome::Failed(m) => assert!(bi_part(&m).1.starts_with("One of the streams only got 4096 bytes")),
        _ => panic!("expected a failure"),
    }
    match pair_outcome(false, &ok, &ok, 4096, &media, 100, &media) {
        PairOutcome::Failed(m) => assert!(bi_part(&m).1.starts_with("One of the streams only got 100 bytes")),
        _ => panic!("expected a failure"),
    }
    assert!(matches!(pair_outcome(false, &ok, &ok, 4096, &media, 2048, &media), PairOutcome::Merge));
}

#[test]
fn first_free_names() {
    let taken: Vec<String> = vec!["a.mp4".into(), "a (1).mp4".into(), "b.mp4".into()];
    assert_eq!(first_free_name("a", "mp4", &taken, "x__dl.mp4"), (2, "a (2).mp4".to_string()));
    assert_eq!(first_free_name("c", "mp4", &taken, "x__dl.mp4"), (0, "c.mp4".to_string()));
    assert_eq!(first_free_name("a", "mp4", &taken, "a (1).mp4"), (1, "a (1).mp4".to_string()));
    assert_eq!(first_free_name("a", "mp4", &[], ""), (0, "a.mp4".to_string()));
}

#[test]
fn download_requests() {
    let mut s = AppState::new();
    let (id1, a) = s.request_download("https://x.com/a.mp4", "best", "  /videos  ", "/default", &[], 100);
    assert_eq!((id1.as_str(), a), ("task_100", Answer::Queued));
    assert_eq!(s.task(&id1).unwrap().out_path, "/videos");
    let before = s.tasks().len();
    let (id2, a) = s.request_download("https://x.com/a.mp4", "worst", "", "/default", &[], 200);
    assert_eq!((id2, a), (id1.clone(), Answer::Joined));
    assert_eq!(s.tasks().len(), before);
    s.set_status(&id1, TaskStatus::Done);
    s.set_file_path(&id1, "/videos/a.mp4".into());
    let (id3, a) = s.request_download("https://x.com/a.mp4", "best", "", "/default", &["/videos/a.mp4".to_string()], 300);
    assert_eq!((id3, a), (id1.clone(), Answer::Reused));
    assert_eq!(s.tasks().len(), before);
    let (id4, a) = s.request_download("https://x.com/a.mp4", "best", "", "/default", &[], 400);
    assert_eq!((id4.as_str(), a), ("task_400", Answer::Queued));
    assert_eq!(s.task(&id4).unwrap().out_path, "/default");
}

#[test]
fn merge_requests() {
    let mut s = AppState::new();
    let (id, a) = s.request_pair("https://x.com/v.m4s", "https://x.com/a.m4s", "", "/d", &[], 7);
    assert_eq!((id.as_str(), a), ("task_7", Answer::Queued));
    let t = s.task(&id).unwrap();
    assert_eq!((t.format.as_deref(), t.pair_url.as_str()), (Some("merge"), "https://x.com/a.m4s"));
    let (id2, a) = s.request_pair("https://x.com/v.m4s", "https://x.com/a.m4s", "", "/d", &[], 8);
    assert_eq!((id2.as_str(), a), ("task_8", Answer::Queued));
    s.set_status(&id, TaskStatus::Done);
    s.set_file_path(&id, "/d/v.mp4".into());
    let (id3, a) = s.request_pair("https://x.com/v.m4s", "https://x.com/a.m4s", "", "/d", &["/d/v.mp4".to_string()], 9);
    assert_eq!((id3, a), (id, Answer::Reused));
}

#[test]
fn direct_download_outcomes() {
    let media = [0u8; 32];
    assert!(matches!(direct_outcome(&Err(CANCELLED.to_string()), 0, &[]), DirectOutcome::Cancelled));
    match direct_outcome(&Err("boom".to_string()), 0, &[]) {
        DirectOutcome::Failed(m) => assert_eq!(m, "boom"),
        _ => panic!("expected a failure"),
    }
    match direct_outcome(&Ok(500), 500, &media) {
        DirectOutcome::Failed(m) => assert!(bi_part(&m).1.starts_with("Only got 500 bytes")),
        _ => panic!("expected a failure"),
    }
    assert!(matches!(direct_outcome(&Ok(4096), 4096, &media), DirectOutcome::Done(4096)));
}
