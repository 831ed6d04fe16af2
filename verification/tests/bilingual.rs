use web_video_catcher::bilingual::{bi, bi_part, bi_text, notice};
use web_video_catcher::schema::{BiText, Notice};

#[test]
fn bilingual_text_is_json_with_both_languages() {
    let s = bi("下载失败", "Download failed");
    let v: serde_json::Value = serde_json::from_str(&s).unwrap();
    assert_eq!(v["zh"], "下载失败");
    assert_eq!(v["en"], "Download failed");
}

#[test]
fn bilingual_round_trip() {
    for (zh, en) in [("", ""), ("引号\"和\\反斜杠", "line\nbreak\ttab"), ("{\"zh\":1}", "é ☃")] {
        assert_eq!(bi_part(&bi(zh, en)), (zh.to_string(), en.to_string()));
    }
}

#[test]
fn plain_text_is_both_languages() {
    assert_eq!(bi_part("ERROR: x"), ("ERROR: x".to_string(), "ERROR: x".to_string()));
    assert_eq!(bi_part("{\"zh\":\"a\"}"), ("{\"zh\":\"a\"}".to_string(), "{\"zh\":\"a\"}".to_string()));
    assert_eq!(bi_part("{\"zh\":\"a\",\"en\":2}").1, "{\"zh\":\"a\",\"en\":2}");
    assert_eq!(bi_part("[\"zh\"]").0, "[\"zh\"]");
    assert_eq!(bi_part("{\"zh\":\"甲\",\"en\":\"A\",\"x\":[1]}"), ("甲".to_string(), "A".to_string()));
}

#[test]
fn notices_as_text() {
    assert_eq!(notice(Notice::Plain("as is".to_string())), "as is");
    let t = BiText { zh: "中".to_string(), en: "en".to_string() };
    assert_eq!(bi_part(&bi_text(&t)), ("中".to_string(), "en".to_string()));
    let n = notice(Notice::Bilingual(BiText { zh: "中".to_string(), en: "en".to_string() }));
    assert_eq!(bi_part(&n), ("中".to_string(), "en".to_string()));
}

#[test]
fn whitespace_and_control_match_std() {
    for c in ['\t', '\n', '\r', ' ', 'a', '\u{85}', '\u{a0}', '\u{2009}', '\u{3000}', '\u{200b}', '\u{7f}', '\u{9f}', '\u{a1}', '\0', '中'] {
        assert_eq!(web_video_catcher::chars::is_whitespace(c), c.is_whitespace(), "{:?}", c);
        assert_eq!(web_video_catcher::chars::is_control(c), c.is_control(), "{:?}", c);
    }
}
