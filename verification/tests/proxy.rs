use web_video_catcher::proxy::{
    connect_target, http_host, http_request_url, is_connect, proxy_media_item, upstream_host,
};
use web_video_catcher::schema::MediaKind;

#[test]
fn request_targets() {
    assert_eq!(
        http_request_url("GET http://x.com/a.mp4 HTTP/1.1\r\nHost: x.com\r\n\r\n").as_deref(),
        Some("http://x.com/a.mp4")
    );
    assert_eq!(http_request_url("GET /a.mp4 HTTP/1.1\r\n"), None);
    assert_eq!(http_request_url("GET\r\n"), None);
    assert_eq!(http_request_url(""), None);
}

#[test]
fn host_headers() {
    assert_eq!(http_host("GET / HTTP/1.1\r\nHOST: Example.COM\r\n").as_deref(), Some("example.com:80"));
    assert_eq!(http_host("GET / HTTP/1.1\r\nhost: a.com:8080\r\n").as_deref(), Some("a.com:8080"));
    assert_eq!(http_host("GET / HTTP/1.1\r\n"), None);
    assert_eq!(upstream_host("GET / HTTP/1.1\r\n"), "unknown:80");
}

#[test]
fn connect_requests() {
    assert!(is_connect("connect a.com:443 HTTP/1.1"));
    assert!(is_connect("CONNECT a.com:443 HTTP/1.1"));
    assert!(!is_connect("GET http://a.com/ HTTP/1.1"));
    assert_eq!(connect_target("CONNECT a.com:443 HTTP/1.1\r\nHost: a.com\r\n"), "a.com:443");
    assert_eq!(connect_target(""), "");
}

#[test]
fn proxy_items() {
    let m = proxy_media_item("http://cdn.x.com/v/clip_720p.mp4", 42).unwrap();
    assert_eq!(m.id, "m_42");
    assert_eq!(m.title, "cdn.x.com");
    assert_eq!(m.source, "cdn.x.com");
    assert_eq!(m.kind, MediaKind::Mp4);
    assert_eq!(m.quality, "720P");
    assert_eq!(m.size_bytes, -1);
    assert_eq!(m.status, "new");
    assert!(proxy_media_item("http://x.com/index.html", 1).is_none());
}
