use web_video_catcher::schema::MediaKind;
use web_video_catcher::sniffer::{classify, host_of};

fn some(kind: MediaKind, q: &str) -> Option<(MediaKind, String)> {
    Some((kind, q.to_string()))
}

#[test]
fn tracking_requests_are_not_media() {
    let log = "https://data.bilibili.com/log/web?0000171https%3A%2F%2Fwww.bilibili.com%2Fvideo%2FBV1GCen6PE7G&bw=1440";
    assert_eq!(classify(log, "text/plain; charset=utf-8"), None);
    assert_eq!(
        classify("https://api.example.com/track?u=/a/b.mp4", "application/json"),
        None
    );
    assert_eq!(classify("https://example.com/pixel.gif?src=x.mp4", "image/gif"), None);
}

#[test]
fn bilibili_dash_video_and_audio_are_told_apart() {
    let video =
        "https://upos-sz-estgcos.bilivideo.com/upgcxcode/1/2/114514/114514-1-30080.m4s?upsig=abc";
    assert_eq!(classify(video, "video/mp4"), some(MediaKind::Mp4, "1080P"));
    let audio =
        "https://upos-sz-estgoss.bilivideo.com/upgcxcode/1/2/114514/114514-1-30280.m4s?upsig=abc";
    assert_eq!(classify(audio, "audio/mp4"), some(MediaKind::Audio, "192K"));
    assert_eq!(
        classify("https://x.bilivideo.com/upgcxcode/1/2/1/1-1-30120.m4s", ""),
        some(MediaKind::Mp4, "4K")
    );
    assert_eq!(
        classify("https://x.bilivideo.com/upgcxcode/1/2/1/1-1-30032.m4s", ""),
        some(MediaKind::Mp4, "480P")
    );
}

#[test]
fn resolution_comes_from_path_and_needs_the_p() {
    assert_eq!(
        classify("https://x.com/a/video_1080p.mp4", "video/mp4"),
        some(MediaKind::Mp4, "1080P")
    );
    assert_eq!(
        classify("https://x.com/a/v1440x9.mp4", ""),
        some(MediaKind::Mp4, "未知")
    );
}

#[test]
fn direct_link_without_extension() {
    let d = "https://v3-web.douyinvod.com/2cbd/abc/video/tos/cn/oQxyz/?a=6383&ch=5";
    assert_eq!(classify(d, "video/mp4"), some(MediaKind::Mp4, "未知"));
    assert_eq!(classify(d, ""), some(MediaKind::Mp4, "未知"));
    assert_eq!(
        classify("https://v3-web.douyinvod.com/2cbd/abc/oQxyz/", ""),
        some(MediaKind::Other, "未知")
    );
    assert_eq!(classify("https://example.com/x/y/?a=1", ""), None);
}

#[test]
fn manifests_keep_their_kind() {
    assert_eq!(
        classify("https://x.com/a/index.m3u8?t=1", ""),
        some(MediaKind::M3u8, "未知")
    );
    assert_eq!(
        classify("https://x.com/a/manifest.mpd", ""),
        some(MediaKind::Dash, "未知")
    );
}

#[test]
fn tiktok_direct_link_is_recognized() {
    let v = "https://v16-webapp-prime.tiktok.com/video/tos/useast5/tos-useast5-ve-0068c001-eo/oQABCDEF/?a=1988&bti=ODcuMzY%3D&ch=0&br=1018&mime_type=video_mp4";
    assert_eq!(classify(v, ""), some(MediaKind::Mp4, "未知"));
    assert_eq!(
        classify(v, "application/octet-stream"),
        some(MediaKind::Mp4, "未知")
    );
    assert_eq!(
        classify("https://p16-sign-va.tiktokcdn.com/obj/tos-maliva-p-0068/abcd/", ""),
        some(MediaKind::Other, "未知")
    );
}

#[test]
fn tiktok_api_and_telemetry_are_not_media() {
    assert_eq!(
        classify(
            "https://www.tiktok.com/api/item/detail/?aid=1988&itemId=7684935383796157716",
            "application/json"
        ),
        None
    );
    assert_eq!(
        classify(
            "https://mon.tiktokv.com/monitor_browser/collect/batch/?biz_id=tiktok_web",
            "application/json"
        ),
        None
    );
    assert_eq!(
        classify("https://analytics.tiktok.com/api/v2/pixel/log/", "text/plain"),
        None
    );
}

#[test]
fn non_http_links_are_not_media() {
    assert_eq!(classify("ftp://x.com/a.mp4", ""), None);
    assert_eq!(classify("blob:https://x.com/abc", "video/mp4"), None);
    assert_eq!(classify("https://x.com", "video/mp4"), None);
}

#[test]
fn upper_case_and_spaces_are_normalised() {
    assert_eq!(
        classify("  HTTPS://X.COM/A/CLIP_720P.MP4  ", " VIDEO/MP4 "),
        some(MediaKind::Mp4, "720P")
    );
}

#[test]
fn extension_rules_pick_the_kind() {
    assert_eq!(classify("https://x.com/a/seg1.ts", ""), some(MediaKind::Ts, "未知"));
    assert_eq!(classify("https://x.com/a/song.flac", ""), some(MediaKind::Audio, "未知"));
    assert_eq!(classify("https://x.com/a/v.webm", ""), some(MediaKind::Mp4, "未知"));
    assert_eq!(classify("https://x.com/a/v", "audio/mpeg"), some(MediaKind::Audio, "未知"));
    assert_eq!(classify("https://x.com/a/v", "video/x-flv"), some(MediaKind::Other, "未知"));
    assert_eq!(classify("https://x.com/a/v.bin", "application/octet-stream"), some(MediaKind::Other, "未知"));
    assert_eq!(classify("https://x.com/a/live", "application/vnd.apple.mpegurl"), some(MediaKind::M3u8, "未知"));
    assert_eq!(classify("https://x.com/a/uhd_4k.mp4", ""), some(MediaKind::Mp4, "4K"));
}

#[test]
fn bilibili_audio_labels() {
    assert_eq!(
        classify("https://x.bilivideo.com/upgcxcode/1/1-1-30251.m4s", ""),
        some(MediaKind::Audio, "Hi-Res")
    );
    assert_eq!(
        classify("https://x.bilivideo.com/upgcxcode/1/1-1-30299.m4s", ""),
        some(MediaKind::Audio, "未知")
    );
}

#[test]
fn host_of_takes_the_authority() {
    assert_eq!(host_of("https://a.b.com/x/y"), "a.b.com");
    assert_eq!(host_of("https://a.b.com"), "a.b.com");
    assert_eq!(host_of("no-scheme"), "no-scheme");
}

#[test]
fn query_and_fragment_do_not_change_the_class() {
    for base in ["https://x.com/a/v.mp4", "https://x.bilivideo.com/upgcxcode/1/2/1/1-1-30120.m4s", "https://x.com/a/index.m3u8", "https://example.com/x/y/"] {
        for ct in ["", "video/mp4", "text/html"] {
            let c = classify(base, ct);
            assert_eq!(classify(&format!("{base}?a=1&u=https://y.com/z.m3u8"), ct), c);
            assert_eq!(classify(&format!("{base}#frag "), ct), c);
            assert_eq!(classify(&format!("{base}?"), ct), c);
        }
    }
}
