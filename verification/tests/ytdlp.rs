use web_video_catcher::bilingual::{bi, bi_part};
use web_video_catcher::schema::Notice;
use web_video_catcher::ytdlp::{
    keep_error_line, resolve_from_stdout, run_end, update_failed, RunEnd,
    best_format, both_failed, download_args, engine_info, extract_error, format_entry,
    friendly_err, http_failure, is_merge_line, is_page_response, out_template,
    page_title_and_url, resolve_args, retry_after_refusal, speed_token, split_num_unit,
    token_after, total_token, update_notice, yt_attempts, yt_format, ytdlp_failure, DESKTOP_UA,
};

#[test]
fn error_lines_are_picked() {
    let e = extract_error("[info] x\nERROR: first\nwarning\nERROR: second  \r\n");
    assert_eq!(e, "ERROR: second");
    assert_eq!(extract_error("only line\nlast line\n"), "last line");
    assert_eq!(extract_error(""), "未知错误");
    assert_eq!(extract_error("x is not a valid URL\nfoo"), "x is not a valid URL");
}

#[test]
fn error_advice() {
    let e = extract_error("ERROR: Unsupported URL: https://k.com/x");
    assert!(e.starts_with("ERROR: Unsupported URL: https://k.com/x —— yt-dlp 没有这个站点的解析器"));
    assert!(e.ends_with("即可自动抓到直链。"));
    let c = extract_error("ERROR: [douyin] Fresh cookies are needed");
    assert!(c.ends_with("用内置浏览器打开并播放即可自动抓直链"));
}

#[test]
fn friendly_errors() {
    match friendly_err("ERROR: HTTP Error 403: Forbidden") {
        Notice::Bilingual(b) => {
            assert!(b.zh.starts_with("ERROR: HTTP Error 403: Forbidden —— CDN 拒绝访问(签名/风控)"));
            assert!(b.en.starts_with("ERROR: HTTP Error 403: Forbidden — CDN refused access"));
        }
        Notice::Plain(_) => panic!("expected advice"),
    }
    match friendly_err("needs cookies") {
        Notice::Bilingual(b) => assert!(b.en.ends_with("pick a browser in Settings for cookie import.")),
        Notice::Plain(_) => panic!("expected advice"),
    }
    match friendly_err("ERROR: other") {
        Notice::Plain(s) => assert_eq!(s, "ERROR: other"),
        Notice::Bilingual(_) => panic!("expected the message as it is"),
    }
    match ytdlp_failure("") {
        Notice::Bilingual(b) => assert_eq!(b.en, "yt-dlp download failed (non-zero exit code)"),
        Notice::Plain(_) => panic!("expected the fixed text"),
    }
}

#[test]
fn refusals_are_retried_while_attempts_last() {
    assert!(retry_after_refusal("ERROR: 403", 0, 3));
    assert!(retry_after_refusal("FORBIDDEN", 1, 3));
    assert!(!retry_after_refusal("ERROR: 403", 2, 3));
    assert!(!retry_after_refusal("ERROR: 404", 0, 3));
}

#[test]
fn failure_texts() {
    let b = both_failed(&bi("a", "A"), "plain b");
    assert_eq!(
        bi_part(&b),
        ("a（内置下载器也失败: plain b）".to_string(), "A (built-in downloader also failed: plain b)".to_string())
    );
    let h = http_failure(403);
    assert_eq!(h.en, "HTTP 403 — CDN refused access (hotlink protection or expired link). Re-capture before downloading.");
    assert_eq!(http_failure(410).en, "HTTP 410 — Link expired. Please re-capture.");
    assert_eq!(http_failure(500).zh, "HTTP 500");
    assert!(is_page_response("Text/HTML; charset=utf-8"));
    assert!(is_page_response("application/json"));
    assert!(!is_page_response("video/mp4"));
}

#[test]
fn command_lines() {
    assert_eq!(yt_format(" best "), "bestvideo+bestaudio/best");
    assert_eq!(yt_format("137+140"), "137+140");
    assert_eq!(out_template("/d", "task_1"), "/d/task_1__%(title).60s.%(ext)s");
    assert_eq!(yt_attempts("https://x.com/v").len(), 1);
    let yt = yt_attempts("https://www.youtube.com/watch?v=1");
    assert_eq!(yt.len(), 3);
    assert_eq!(yt[2].as_deref(), Some("youtube:player_client=android"));
    let args = download_args(
        "best",
        "/d/t__%(title).60s.%(ext)s",
        &Some("https://p/".into()),
        &None,
        &Some("a=1".into()),
        &Some("firefox".into()),
        &None,
        "https://x.com/v",
    );
    let mut want: Vec<String> = vec![
        "-f", "best", "-o", "/d/t__%(title).60s.%(ext)s", "--no-playlist", "--newline",
        "--windows-filenames", "--trim-filenames", "120", "--socket-timeout", "20", "--retries",
        "5", "--fragment-retries", "5", "--merge-output-format", "mp4", "--user-agent",
    ]
    .into_iter()
    .map(String::from)
    .collect();
    want.push(DESKTOP_UA.to_string());
    for a in ["--add-header", "Referer: https://p/", "--add-header", "Cookie: a=1", "--cookies-from-browser", "firefox", "https://x.com/v"] {
        want.push(a.to_string());
    }
    assert_eq!(args, want);
    let yargs = download_args("best", "t", &None, &Some("/tmp/c.txt".into()), &Some("a=1".into()), &None, &Some("youtube:player_client=android".into()), "https://youtu.be/x");
    assert_eq!(
        yargs[19..].to_vec(),
        vec!["--cookies", "/tmp/c.txt", "--js-runtimes", "node", "--extractor-args", "youtube:player_client=android", "https://youtu.be/x"]
            .into_iter()
            .map(String::from)
            .collect::<Vec<_>>()
    );
    let r = resolve_args("https://youtu.be/x", &None, &Some("edge".into()));
    assert_eq!(
        r,
        vec!["-J", "--no-playlist", "https://youtu.be/x", "--cookies-from-browser", "edge", "--js-runtimes", "node", "--extractor-args", "youtube:player_client=default,web_embedded"]
            .into_iter()
            .map(String::from)
            .collect::<Vec<_>>()
    );
}

#[test]
fn progress_tokens() {
    let l = "[download]  42.0% of ~ 12.34MiB at  1.20MiB/s ETA 00:10";
    assert_eq!(total_token(l).as_deref(), Some("~"));
    assert_eq!(total_token("[download]  42.0% of 12.34MiB at 1MiB/s").as_deref(), Some("12.34MiB"));
    assert_eq!(speed_token(l).as_deref(), Some("1.20MiB"));
    assert_eq!(speed_token("x at 5KiB/s/s"), Some("5KiB".to_string()));
    assert_eq!(token_after("no marker", " of "), None);
    assert_eq!(token_after("a of   ", " of "), None);
    assert_eq!(split_num_unit("12.5MiB"), ("12.5".to_string(), "MiB".to_string()));
    assert_eq!(split_num_unit("KiB"), ("".to_string(), "KiB".to_string()));
    assert!(is_merge_line("[Merger] Merging formats into \"x.mp4\""));
    assert!(!is_merge_line("[download] 1%"));
}

#[test]
fn resolved_formats() {
    let b = best_format();
    assert_eq!((b.format_id.as_str(), b.size), ("best", -1));
    let f = format_entry(Some("mp4".into()), Some("137".into()), Some(1080), Some("none".into()), Some("avc1".into()), Some(5)).unwrap();
    assert_eq!((f.quality.as_str(), f.kind.as_str(), f.size), ("1080P", "Video", 5));
    let v = format_entry(Some("mp4".into()), Some("x".into()), None, Some("none".into()), None, None).unwrap();
    assert_eq!((v.quality.as_str(), v.size), ("视频流", -1));
    let a = format_entry(Some("m4a".into()), Some("140".into()), None, Some("mp4a".into()), Some("none".into()), None).unwrap();
    assert_eq!((a.quality.as_str(), a.kind.as_str()), ("音频流", "Audio"));
    assert!(format_entry(Some("mhtml".into()), Some("sb0".into()), None, None, None, None).is_none());
    assert!(format_entry(Some("mp4".into()), Some("".into()), None, None, None, None).is_none());
    assert!(format_entry(Some("mp4".into()), None, None, None, None, None).is_none());
    let (t, u) = page_title_and_url(None, None, Some("https://u".into()), "https://in");
    assert_eq!((t.as_str(), u.as_str()), ("未知标题", "https://u"));
}

#[test]
fn tool_reports() {
    let n = update_notice(" 2024.12.01\n");
    assert_eq!(n.en, "yt-dlp checked/updated, current version 2024.12.01");
    assert_eq!(update_notice("").zh, "yt-dlp 更新完成(无法读取版本号)");
    let e = engine_info(true, "2024.12.01\n", false);
    assert_eq!(e.yt_dlp_version, "2024.12.01");
    assert!(!e.ffmpeg);
    assert_eq!(engine_info(false, "garbage", true).yt_dlp_version, "");
}

#[test]
fn error_line_tracking() {
    let e = keep_error_line(String::new(), "[download] 10%");
    assert_eq!(e, "");
    let e = keep_error_line(e, "ERROR: [youtube] HTTP Error 403: Forbidden");
    assert_eq!(e, "ERROR: [youtube] HTTP Error 403: Forbidden");
    let e = keep_error_line(e, "WARNING: later");
    assert_eq!(e, "ERROR: [youtube] HTTP Error 403: Forbidden");
}

#[test]
fn attempt_endings() {
    assert!(matches!(run_end(true, true, "", 0, 3), RunEnd::Cancelled));
    assert!(matches!(run_end(false, true, "ERROR: 403", 0, 3), RunEnd::Finished));
    assert!(matches!(run_end(false, false, "ERROR: HTTP Error 403", 1, 3), RunEnd::Retry));
    match run_end(false, false, "ERROR: HTTP Error 403", 2, 3) {
        RunEnd::Failed(m) => assert!(bi_part(&m).1.starts_with("ERROR: HTTP Error 403 — CDN refused access")),
        _ => panic!("expected a failure"),
    }
    match run_end(false, false, "ERROR: Unsupported", 0, 3) {
        RunEnd::Failed(m) => assert_eq!(m, "ERROR: Unsupported"),
        _ => panic!("expected a failure"),
    }
    match run_end(false, false, "", 0, 1) {
        RunEnd::Failed(m) => assert_eq!(bi_part(&m).1, "yt-dlp download failed (non-zero exit code)"),
        _ => panic!("expected a failure"),
    }
}

#[test]
fn update_launch_failure() {
    let m = update_failed("program not found");
    assert_eq!(
        bi_part(&m),
        (
            "未找到 yt-dlp 或更新失败: program not found（请确认本机已安装 yt-dlp 并在 PATH 中）".to_string(),
            "yt-dlp not found or update failed: program not found (make sure yt-dlp is installed and on PATH)".to_string()
        )
    );
}

#[test]
fn pages_from_ytdlp_output() {
    let out = r#"{"title":"T","url":"https://cdn/x","formats":[
        {"format_id":"sb0","ext":"mhtml"},
        {"format_id":"","ext":"mp4"},
        {"ext":"mp4"},
        {"format_id":"137","ext":"mp4","height":1080,"acodec":"none","vcodec":"avc1","filesize":123},
        {"format_id":"140","ext":"m4a","acodec":"mp4a","vcodec":"none"},
        {"format_id":"x","vcodec":"vp9","acodec":"none"}
    ]}"#;
    let p = resolve_from_stdout(out, "https://page/1").unwrap();
    assert_eq!(p.title, "T");
    assert_eq!(p.url, "https://cdn/x");
    let ids: Vec<&str> = p.formats.iter().map(|f| f.format_id.as_str()).collect();
    assert_eq!(ids, vec!["best", "137", "140", "x"]);
    assert_eq!((p.formats[1].quality.as_str(), p.formats[1].kind.as_str(), p.formats[1].size), ("1080P", "Video", 123));
    assert_eq!((p.formats[2].quality.as_str(), p.formats[2].kind.as_str(), p.formats[2].size), ("音频流", "Audio", -1));
    assert_eq!((p.formats[3].quality.as_str(), p.formats[3].ext.as_str()), ("视频流", ""));
    let p = resolve_from_stdout(r#"{"webpage_url":"https://w"}"#, "https://page/1").unwrap();
    assert_eq!((p.title.as_str(), p.url.as_str(), p.formats.len()), ("未知标题", "https://w", 1));
    let p = resolve_from_stdout("{}", "https://page/1").unwrap();
    assert_eq!(p.url, "https://page/1");
    let e = resolve_from_stdout("not json", "https://page/1").unwrap_err();
    assert!(e.starts_with("返回内容不是有效 JSON: "));
    assert!(e.len() > "返回内容不是有效 JSON: ".len());
}
