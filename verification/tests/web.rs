use web_video_catcher::web::{browser_headers, cookie_header, cookies_txt, head_size, size_from_headers};

fn pairs(v: &[(&str, &str)]) -> Vec<(String, String)> {
    v.iter().map(|(a, b)| (a.to_string(), b.to_string())).collect()
}

#[test]
fn cookie_headers() {
    let cs = pairs(&[("a", "1"), ("", "x"), ("b", "2"), ("a", "3")]);
    assert_eq!(cookie_header(&cs).as_deref(), Some("a=1; b=2"));
    assert_eq!(cookie_header(&pairs(&[("", "1")])), None);
    assert_eq!(cookie_header(&[]), None);
}

#[test]
fn netscape_cookie_files() {
    let cs = pairs(&[("sid", "abc"), ("sid", "dup"), ("t", "1")]);
    assert_eq!(
        cookies_txt(".www.x.com", &cs).as_deref(),
        Some("# Netscape HTTP Cookie File\n.www.x.com\tTRUE\t/\tTRUE\t2145916800\tsid\tabc\n.www.x.com\tTRUE\t/\tTRUE\t2145916800\tt\t1\n")
    );
    assert_eq!(cookies_txt("", &cs), None);
    assert_eq!(cookies_txt("x.com", &[]), None);
}

#[test]
fn request_headers() {
    let h = browser_headers(Some("https://www.bilibili.com/video/BV1"), Some("a=1"));
    assert_eq!(
        h,
        pairs(&[
            ("Accept", "*/*"),
            ("Referer", "https://www.bilibili.com/video/BV1"),
            ("Origin", "https://www.bilibili.com"),
            ("Cookie", "a=1"),
        ])
    );
    assert_eq!(browser_headers(None, None), pairs(&[("Accept", "*/*")]));
    assert_eq!(browser_headers(Some("weird"), None), pairs(&[("Accept", "*/*"), ("Referer", "weird")]));
}

#[test]
fn response_sizes() {
    assert_eq!(size_from_headers(Some("bytes 0-0/12345"), Some(1)), Some(12345));
    assert_eq!(size_from_headers(Some("bytes 0-0/*"), Some(99)), Some(99));
    assert_eq!(size_from_headers(Some("bytes 0-0/ 77 "), None), Some(77));
    assert_eq!(size_from_headers(None, Some(0)), None);
    assert_eq!(size_from_headers(Some("bytes 0-0/-5"), None), None);
    assert_eq!(size_from_headers(None, Some(u64::MAX)), None);
    assert_eq!(size_from_headers(Some("9223372036854775808"), Some(3)), Some(3));
}

#[test]
fn head_answers() {
    assert_eq!(head_size(true, None, Some(2048)), Some(2048));
    assert_eq!(head_size(true, Some("bytes 0-0/999"), Some(1)), Some(999));
    assert_eq!(head_size(false, None, Some(2048)), None);
    assert_eq!(head_size(true, None, Some(0)), None);
}
