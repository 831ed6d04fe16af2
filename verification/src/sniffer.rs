//! Media classification of request URLs: which links are media, of what kind
//! and quality, and which are trackers or page resources.
use vstd::prelude::*;

use crate::chars;
use crate::schema::MediaKind;
use crate::text::{
    after_last, all_digits, any_contained, any_domain, any_prefix, before_any, contains,
    digits_value, find_sub, first_in, is_ascii_digit, lemma_before_any_concat, lemma_find_sub_after,
    lemma_find_sub_prefix, lemma_find_sub_some, lemma_first_in, lemma_lower_concat,
    lemma_trim_end_concat, lemma_trimmed_ends, lower, occurs_at, rsplit_once, second_piece,
    starts_with, strs, trim, trim_end, trim_start,
};

verus! {

// ---------------------------------------------------------------------------
// The rule tables
// ---------------------------------------------------------------------------

/// Analytics and telemetry hosts; a request to one of them or a subdomain is never media.
pub open spec fn tracker_hosts() -> Seq<Seq<char>> {
    seq![
        "data.bilibili.com"@,
        "dataflow.bilibili.com"@,
        "cm.bilibili.com"@,
        "google-analytics.com"@,
        "googletagmanager.com"@,
        "doubleclick.net"@,
        "hm.baidu.com"@,
        "cnzz.com"@,
        "umeng.com"@,
        "sensorsdata.cn"@,
        "talkingdata.com"@,
        "analytics.tiktok.com"@,
        "mon.tiktokv.com"@,
        "log.tiktokv.com"@,
        "mcs.zijieapi.com"@,
    ]
}

fn tracker_hosts_exec() -> (r: Vec<&'static str>)
    ensures
        strs(r@) == tracker_hosts(),
{
    let r = vec![
        "data.bilibili.com",
        "dataflow.bilibili.com",
        "cm.bilibili.com",
        "google-analytics.com",
        "googletagmanager.com",
        "doubleclick.net",
        "hm.baidu.com",
        "cnzz.com",
        "umeng.com",
        "sensorsdata.cn",
        "talkingdata.com",
        "analytics.tiktok.com",
        "mon.tiktokv.com",
        "log.tiktokv.com",
        "mcs.zijieapi.com",
    ];
    assert(strs(r@) =~= tracker_hosts());
    r
}

/// Path fragments of beacon and log endpoints.
pub open spec fn tracker_paths() -> Seq<Seq<char>> {
    seq!["/log/"@, "/beacon"@, "/collect"@, "/report"@, "/app_log"@, "/monitor_browser"@]
}

fn tracker_paths_exec() -> (r: Vec<&'static str>)
    ensures
        strs(r@) == tracker_paths(),
{
    let r = vec!["/log/", "/beacon", "/collect", "/report", "/app_log", "/monitor_browser"];
    assert(strs(r@) =~= tracker_paths());
    r
}

/// Content-type prefixes that are certainly not media.
pub open spec fn non_media_ct() -> Seq<Seq<char>> {
    seq![
        "text/"@,
        "application/json"@,
        "application/javascript"@,
        "application/xml"@,
        "application/xhtml"@,
        "image/"@,
        "font/"@,
        "application/wasm"@,
        "application/pdf"@,
        "application/zip"@,
    ]
}

fn non_media_ct_exec() -> (r: Vec<&'static str>)
    ensures
        strs(r@) == non_media_ct(),
{
    let r = vec![
        "text/",
        "application/json",
        "application/javascript",
        "application/xml",
        "application/xhtml",
        "image/",
        "font/",
        "application/wasm",
        "application/pdf",
        "application/zip",
    ];
    assert(strs(r@) =~= non_media_ct());
    r
}

pub open spec fn audio_exts() -> Seq<Seq<char>> {
    seq!["mp3"@, "m4a"@, "aac"@, "flac"@, "ogg"@, "opus"@, "wav"@]
}

fn audio_exts_exec() -> (r: Vec<&'static str>)
    ensures
        strs(r@) == audio_exts(),
{
    let r = vec!["mp3", "m4a", "aac", "flac", "ogg", "opus", "wav"];
    assert(strs(r@) =~= audio_exts());
    r
}

pub open spec fn video_exts() -> Seq<Seq<char>> {
    seq!["mp4"@, "m4v"@, "mov"@, "webm"@, "mkv"@, "flv"@, "f4v"@, "m4s"@, "3gp"@]
}

fn video_exts_exec() -> (r: Vec<&'static str>)
    ensures
        strs(r@) == video_exts(),
{
    let r = vec!["mp4", "m4v", "mov", "webm", "mkv", "flv", "f4v", "m4s", "3gp"];
    assert(strs(r@) =~= video_exts());
    r
}

pub open spec fn ts_exts() -> Seq<Seq<char>> {
    seq!["ts"@, "m2ts"@]
}

fn ts_exts_exec() -> (r: Vec<&'static str>)
    ensures
        strs(r@) == ts_exts(),
{
    let r = vec!["ts", "m2ts"];
    assert(strs(r@) =~= ts_exts());
    r
}

/// CDNs whose extensionless links are media.
pub open spec fn trusted_media_cdns() -> Seq<Seq<char>> {
    seq![
        "douyinvod.com"@,
        "bytecdntp.com"@,
        "zjcdn.com"@,
        "ixiguavideo.com"@,
        "ixigua.com"@,
        "tiktokcdn.com"@,
        "tiktokcdn-us.com"@,
        "tiktokcdn-eu.com"@,
    ]
}

fn trusted_media_cdns_exec() -> (r: Vec<&'static str>)
    ensures
        strs(r@) == trusted_media_cdns(),
{
    let r = vec![
        "douyinvod.com",
        "bytecdntp.com",
        "zjcdn.com",
        "ixiguavideo.com",
        "ixigua.com",
        "tiktokcdn.com",
        "tiktokcdn-us.com",
        "tiktokcdn-eu.com",
    ];
    assert(strs(r@) =~= trusted_media_cdns());
    r
}

/// Path fragments of extensionless stream endpoints.
pub open spec fn media_path_hints() -> Seq<Seq<char>> {
    seq!["/video/tos/"@, "/aweme/v1/play"@, "/upgcxcode/"@]
}

fn media_path_hints_exec() -> (r: Vec<&'static str>)
    ensures
        strs(r@) == media_path_hints(),
{
    let r = vec!["/video/tos/", "/aweme/v1/play", "/upgcxcode/"];
    assert(strs(r@) =~= media_path_hints());
    r
}

/// The label of an unknown quality.
pub open spec fn unknown() -> Seq<char> {
    "未知"@
}

// ---------------------------------------------------------------------------
// Specification of the classification
// ---------------------------------------------------------------------------

pub open spec fn query_stops() -> Seq<char> {
    seq!['?', '#']
}

pub open spec fn host_stops() -> Seq<char> {
    seq!['/', '?', '#']
}

pub open spec fn scheme_sep() -> Seq<char> {
    "://"@
}

/// The path of a URL: from the first `/` after the scheme to the query or
/// fragment; empty when there is none.
pub open spec fn path_of(url: Seq<char>) -> Seq<char> {
    let rest = match second_piece(url, scheme_sep()) {
        Some(r) => r,
        None => Seq::empty(),
    };
    let no_query = before_any(rest, query_stops());
    match first_in(no_query, seq!['/'], 0) {
        Some(i) => no_query.skip(i),
        None => Seq::empty(),
    }
}

/// The host of a URL, without port.
pub open spec fn host_slice(url: Seq<char>) -> Seq<char> {
    let rest = match second_piece(url, scheme_sep()) {
        Some(r) => r,
        None => url,
    };
    before_any(before_any(rest, host_stops()), seq![':'])
}

/// The extension of the last path segment (after its last `.`), or empty.
pub open spec fn ext_of(path: Seq<char>) -> Seq<char> {
    match rsplit_once(after_last(path, '/'), '.') {
        Some((_, e)) => e,
        None => Seq::empty(),
    }
}

/// A non-empty extension that is one of `list`.
pub open spec fn ext_in(ext: Seq<char>, list: Seq<Seq<char>>) -> bool {
    ext.len() > 0 && list.contains(ext)
}

pub open spec fn is_tracking(host: Seq<char>, path: Seq<char>) -> bool {
    any_domain(host, tracker_hosts()) || any_contained(path, tracker_paths())
}

pub open spec fn is_trusted_media_cdn(host: Seq<char>) -> bool {
    any_domain(host, trusted_media_cdns())
}

/// The numeric stream id of a Bilibili DASH segment name: the five ASCII
/// digits starting with `30` after the last `-` of the file stem.
pub open spec fn bili_id(path: Seq<char>) -> Seq<char> {
    let seg = after_last(path, '/');
    let stem = match rsplit_once(seg, '.') {
        Some((s, _)) => s,
        None => seg,
    };
    after_last(stem, '-')
}

pub open spec fn dash_code(id: Seq<char>) -> Option<nat> {
    if id.len() == 5 && all_digits(id) && starts_with(id, "30"@) {
        Some(digits_value(id))
    } else {
        None
    }
}

/// Bitrate labels of the DASH audio ids.
pub open spec fn audio_label(n: nat) -> Seq<char> {
    if n == 30216 {
        "64K"@
    } else if n == 30232 {
        "132K"@
    } else if n == 30280 {
        "192K"@
    } else if n == 30250 {
        "杜比全景声"@
    } else if n == 30251 {
        "Hi-Res"@
    } else if n == 30282 {
        "杜比全景声"@
    } else {
        unknown()
    }
}

/// Resolution labels of the DASH video ids.
pub open spec fn video_label(n: nat) -> Seq<char> {
    if n == 30006 {
        "240P"@
    } else if n == 30011 || n == 30016 {
        "360P"@
    } else if n == 30032 || n == 30033 {
        "480P"@
    } else if n == 30064 {
        "720P"@
    } else if n == 30074 {
        "720P60"@
    } else if n == 30077 || n == 30080 {
        "1080P"@
    } else if n == 30112 {
        "1080P+"@
    } else if n == 30116 {
        "1080P60"@
    } else if n == 30120 {
        "4K"@
    } else if n == 30125 {
        "HDR"@
    } else if n == 30126 {
        "杜比视界"@
    } else if n == 30127 {
        "8K"@
    } else {
        unknown()
    }
}

/// A Bilibili DASH segment: ids from 30200 up are audio, the others video.
pub open spec fn bili_dash(path: Seq<char>) -> Option<(MediaKind, Seq<char>)> {
    match dash_code(bili_id(path)) {
        Some(n) => if n >= 30200 {
            Some((MediaKind::Audio, audio_label(n)))
        } else {
            Some((MediaKind::Mp4, video_label(n)))
        },
        None => None,
    }
}

/// The resolution named in a path: the first of 2160p, 1440p, 1080p, 720p,
/// 480p, 360p that occurs, else 4K when `4k` occurs.
pub open spec fn quality_from_path(path: Seq<char>) -> Seq<char> {
    if contains(path, "2160p"@) {
        "2160P"@
    } else if contains(path, "1440p"@) {
        "1440P"@
    } else if contains(path, "1080p"@) {
        "1080P"@
    } else if contains(path, "720p"@) {
        "720P"@
    } else if contains(path, "480p"@) {
        "480P"@
    } else if contains(path, "360p"@) {
        "360P"@
    } else if contains(path, "4k"@) {
        "4K"@
    } else {
        unknown()
    }
}

/// The media rules, in the order in which they apply, for a URL that passed
/// the scheme, path, tracker and content-type checks.
pub open spec fn media_rule(path: Seq<char>, ct: Seq<char>, host: Seq<char>) -> Option<
    (MediaKind, Seq<char>),
> {
    let ext = ext_of(path);
    if ext == "m3u8"@ || contains(ct, "mpegurl"@) {
        Some((MediaKind::M3u8, unknown()))
    } else if ext == "mpd"@ || contains(ct, "dash+xml"@) {
        Some((MediaKind::Dash, unknown()))
    } else if bili_dash(path) is Some {
        bili_dash(path)
    } else if any_contained(path, media_path_hints()) {
        Some((MediaKind::Mp4, quality_from_path(path)))
    } else if ext_in(ext, ts_exts()) || contains(ct, "mp2t"@) {
        Some((MediaKind::Ts, quality_from_path(path)))
    } else if ext_in(ext, audio_exts()) {
        Some((MediaKind::Audio, quality_from_path(path)))
    } else if ext_in(ext, video_exts()) {
        Some((MediaKind::Mp4, quality_from_path(path)))
    } else if starts_with(ct, "audio/"@) {
        Some((MediaKind::Audio, unknown()))
    } else if starts_with(ct, "video/"@) {
        Some(
            (
                if contains(ct, "mp4"@) {
                    MediaKind::Mp4
                } else {
                    MediaKind::Other
                },
                unknown(),
            ),
        )
    } else if contains(ct, "octet-stream"@) {
        Some((MediaKind::Other, unknown()))
    } else if ext.len() == 0 && is_trusted_media_cdn(host) {
        Some((MediaKind::Other, unknown()))
    } else {
        None
    }
}

/// What `classify` answers: `None` for what is not an http(s) media link,
/// else the kind and the quality label.
pub open spec fn classify_spec(url: Seq<char>, content_type: Seq<char>) -> Option<
    (MediaKind, Seq<char>),
> {
    let low = lower(trim(url));
    let ct = lower(trim(content_type));
    let path = path_of(low);
    if !(starts_with(low, "http://"@) || starts_with(low, "https://"@)) {
        None
    } else if path.len() == 0 {
        None
    } else if is_tracking(host_slice(low), path) {
        None
    } else if any_prefix(ct, non_media_ct()) {
        None
    } else {
        media_rule(path, ct, host_slice(low))
    }
}

pub open spec fn label_view(r: Option<(MediaKind, String)>) -> Option<(MediaKind, Seq<char>)> {
    match r {
        Some((k, q)) => Some((k, q@)),
        None => None,
    }
}

/// The host part of a URL as `host_of` gives it: between the first `//` and
/// the next `/`; the whole text when there is no `//`.
pub open spec fn host_of_spec(u: Seq<char>) -> Seq<char> {
    match second_piece(u, "//"@) {
        Some(rest) => before_any(rest, seq!['/']),
        None => u,
    }
}

// ---------------------------------------------------------------------------
// Implementation
// ---------------------------------------------------------------------------

fn query_stops_exec() -> (r: Vec<char>)
    ensures
        r@ == query_stops(),
{
    let r = vec!['?', '#'];
    assert(r@ =~= query_stops());
    r
}

fn host_stops_exec() -> (r: Vec<char>)
    ensures
        r@ == host_stops(),
{
    let r = vec!['/', '?', '#'];
    assert(r@ =~= host_stops());
    r
}

fn one_char(c: char) -> (r: Vec<char>)
    ensures
        r@ == seq![c],
{
    let r = vec![c];
    assert(r@ =~= seq![c]);
    r
}

fn path_of_exec(url: &Vec<char>) -> (r: Vec<char>)
    ensures
        r@ == path_of(url@),
{
    let sep = chars::chars_of("://");
    let rest = match chars::second_piece(url, &sep) {
        Some(r) => r,
        None => Vec::new(),
    };
    proof {
        assert(rest@ == (match second_piece(url@, scheme_sep()) {
            Some(r) => r,
            None => Seq::<char>::empty(),
        }));
    }
    let no_query = chars::before_any(&rest, &query_stops_exec());
    let slash = one_char('/');
    proof {
        lemma_first_in(no_query@, seq!['/'], 0);
    }
    match chars::first_in(&no_query, &slash, 0) {
        Some(i) => chars::slice(&no_query, i, no_query.len()),
        None => Vec::new(),
    }
}

fn host_slice_exec(url: &Vec<char>) -> (r: Vec<char>)
    ensures
        r@ == host_slice(url@),
{
    let sep = chars::chars_of("://");
    let rest = match chars::second_piece(url, &sep) {
        Some(r) => r,
        None => chars::slice(url, 0, url.len()),
    };
    proof {
        assert(url@.subrange(0, url@.len() as int) =~= url@);
    }
    let head = chars::before_any(&rest, &host_stops_exec());
    chars::before_any(&head, &one_char(':'))
}

fn ext_of_exec(path: &Vec<char>) -> (r: Vec<char>)
    ensures
        r@ == ext_of(path@),
{
    let seg = chars::after_last(path, '/');
    match chars::rsplit_once(&seg, '.') {
        Some((_, e)) => e,
        None => Vec::new(),
    }
}

fn ext_in_exec(ext: &Vec<char>, list: &Vec<&str>) -> (r: bool)
    ensures
        r == ext_in(ext@, strs(list@)),
{
    if ext.len() == 0 {
        return false;
    }
    let mut i: usize = 0;
    while i < list.len()
        invariant
            i <= list.len(),
            ext@.len() > 0,
            forall|j: int| 0 <= j < i ==> strs(list@)[j] != ext@,
        decreases list.len() - i,
    {
        if chars::eq_str(ext, list[i]) {
            assert(strs(list@)[i as int] == ext@);
            assert(strs(list@).contains(ext@));
            return true;
        }
        i = i + 1;
    }
    assert forall|j: int| 0 <= j < strs(list@).len() implies strs(list@)[j] != ext@ by {}
    false
}

fn is_tracking_exec(host: &Vec<char>, path: &Vec<char>) -> (r: bool)
    ensures
        r == is_tracking(host@, path@),
{
    chars::any_domain(host, &tracker_hosts_exec()) || chars::any_contained(
        path,
        &tracker_paths_exec(),
    )
}

fn label(s: &str) -> (r: String)
    ensures
        r@ == s@,
{
    chars::owned(s)
}

fn audio_label_exec(n: u32) -> (r: String)
    ensures
        r@ == audio_label(n as nat),
{
    if n == 30216 {
        label("64K")
    } else if n == 30232 {
        label("132K")
    } else if n == 30280 {
        label("192K")
    } else if n == 30250 {
        label("杜比全景声")
    } else if n == 30251 {
        label("Hi-Res")
    } else if n == 30282 {
        label("杜比全景声")
    } else {
        label("未知")
    }
}

fn video_label_exec(n: u32) -> (r: String)
    ensures
        r@ == video_label(n as nat),
{
    if n == 30006 {
        label("240P")
    } else if n == 30011 || n == 30016 {
        label("360P")
    } else if n == 30032 || n == 30033 {
        label("480P")
    } else if n == 30064 {
        label("720P")
    } else if n == 30074 {
        label("720P60")
    } else if n == 30077 || n == 30080 {
        label("1080P")
    } else if n == 30112 {
        label("1080P+")
    } else if n == 30116 {
        label("1080P60")
    } else if n == 30120 {
        label("4K")
    } else if n == 30125 {
        label("HDR")
    } else if n == 30126 {
        label("杜比视界")
    } else if n == 30127 {
        label("8K")
    } else {
        label("未知")
    }
}

fn bili_id_exec(path: &Vec<char>) -> (r: Vec<char>)
    ensures
        r@ == bili_id(path@),
{
    let seg = chars::after_last(path, '/');
    let stem = match chars::rsplit_once(&seg, '.') {
        Some((s, _)) => s,
        None => seg,
    };
    chars::after_last(&stem, '-')
}

fn dash_code_exec(id: &Vec<char>) -> (r: Option<u32>)
    ensures
        match r {
            Some(n) => dash_code(id@) == Some(n as nat),
            None => dash_code(id@) is None,
        },
{
    if id.len() != 5 || !chars::starts_with_str(id, "30") {
        return None;
    }
    let mut n: u32 = 0;
    let mut i: usize = 0;
    while i < 5
        invariant
            id.len() == 5,
            i <= 5,
            n as nat == digits_value(id@.take(i as int)),
            n < pow10(i as nat),
            forall|j: int| 0 <= j < i ==> is_ascii_digit(#[trigger] id@[j]),
        decreases 5 - i,
    {
        let c = id[i];
        proof {
            reveal_with_fuel(pow10, 6);
        }
        if !chars::is_ascii_digit(c) {
            assert(!all_digits(id@));
            return None;
        }
        assert(id@.take(i + 1).drop_last() =~= id@.take(i as int));
        proof {
            lemma_digits_bound(id@.take(i + 1));
            assert forall|j: int| 0 <= j < i + 1 implies is_ascii_digit(
                #[trigger] id@.take(i + 1)[j],
            ) by {}
        }
        n = n * 10 + ((c as u32) - 48);
        i = i + 1;
    }
    assert(id@.take(5) =~= id@);
    Some(n)
}

pub open spec fn pow10(k: nat) -> nat
    decreases k,
{
    if k == 0 {
        1
    } else {
        10 * pow10((k - 1) as nat)
    }
}

proof fn lemma_digits_bound(s: Seq<char>)
    requires
        all_digits(s),
    ensures
        digits_value(s) < pow10(s.len()),
    decreases s.len(),
{
    if s.len() > 0 {
        assert forall|j: int| 0 <= j < s.len() - 1 implies is_ascii_digit(
            #[trigger] s.drop_last()[j],
        ) by {
            assert(s.drop_last()[j] == s[j]);
        }
        lemma_digits_bound(s.drop_last());
        assert(is_ascii_digit(s[s.len() - 1]));
    }
}

fn bili_dash_exec(path: &Vec<char>) -> (r: Option<(MediaKind, String)>)
    ensures
        label_view(r) == bili_dash(path@),
{
    let id = bili_id_exec(path);
    match dash_code_exec(&id) {
        Some(n) => if n >= 30200 {
            Some((MediaKind::Audio, audio_label_exec(n)))
        } else {
            Some((MediaKind::Mp4, video_label_exec(n)))
        },
        None => None,
    }
}

fn quality_from_path_exec(path: &Vec<char>) -> (r: String)
    ensures
        r@ == quality_from_path(path@),
{
    if chars::contains_str(path, "2160p") {
        label("2160P")
    } else if chars::contains_str(path, "1440p") {
        label("1440P")
    } else if chars::contains_str(path, "1080p") {
        label("1080P")
    } else if chars::contains_str(path, "720p") {
        label("720P")
    } else if chars::contains_str(path, "480p") {
        label("480P")
    } else if chars::contains_str(path, "360p") {
        label("360P")
    } else if chars::contains_str(path, "4k") {
        label("4K")
    } else {
        label("未知")
    }
}

fn media_rule_exec(path: &Vec<char>, ct: &Vec<char>, host: &Vec<char>) -> (r: Option<
    (MediaKind, String),
>)
    ensures
        label_view(r) == media_rule(path@, ct@, host@),
{
    let ext = ext_of_exec(path);
    if chars::eq_str(&ext, "m3u8") || chars::contains_str(ct, "mpegurl") {
        return Some((MediaKind::M3u8, label("未知")));
    }
    if chars::eq_str(&ext, "mpd") || chars::contains_str(ct, "dash+xml") {
        return Some((MediaKind::Dash, label("未知")));
    }
    let hit = bili_dash_exec(path);
    if hit.is_some() {
        return hit;
    }
    if chars::any_contained(path, &media_path_hints_exec()) {
        return Some((MediaKind::Mp4, quality_from_path_exec(path)));
    }
    if ext_in_exec(&ext, &ts_exts_exec()) || chars::contains_str(ct, "mp2t") {
        return Some((MediaKind::Ts, quality_from_path_exec(path)));
    }
    if ext_in_exec(&ext, &audio_exts_exec()) {
        return Some((MediaKind::Audio, quality_from_path_exec(path)));
    }
    if ext_in_exec(&ext, &video_exts_exec()) {
        return Some((MediaKind::Mp4, quality_from_path_exec(path)));
    }
    if chars::starts_with_str(ct, "audio/") {
        return Some((MediaKind::Audio, label("未知")));
    }
    if chars::starts_with_str(ct, "video/") {
        let kind = if chars::contains_str(ct, "mp4") {
            MediaKind::Mp4
        } else {
            MediaKind::Other
        };
        return Some((kind, label("未知")));
    }
    if chars::contains_str(ct, "octet-stream") {
        return Some((MediaKind::Other, label("未知")));
    }
    if ext.len() == 0 && chars::any_domain(host, &trusted_media_cdns_exec()) {
        return Some((MediaKind::Other, label("未知")));
    }
    None
}

/// Decides whether a request URL (with the response's content type, possibly
/// empty) is a media link, and of which kind and quality.
pub fn classify(url: &str, content_type: &str) -> (r: Option<(MediaKind, String)>)
    ensures
        label_view(r) == classify_spec(url@, content_type@),
{
    let u = chars::chars_of(url);
    let low = chars::lower(&chars::trim(&u));
    if !(chars::starts_with_str(&low, "http://") || chars::starts_with_str(&low, "https://")) {
        return None;
    }
    let path = path_of_exec(&low);
    if path.len() == 0 {
        return None;
    }
    let host = host_slice_exec(&low);
    if is_tracking_exec(&host, &path) {
        return None;
    }
    let c = chars::chars_of(content_type);
    let ct = chars::lower(&chars::trim(&c));
    if chars::any_prefix(&ct, &non_media_ct_exec()) {
        return None;
    }
    media_rule_exec(&path, &ct, &host)
}

pub fn host_of_chars(u: &Vec<char>) -> (r: Vec<char>)
    ensures
        r@ == host_of_spec(u@),
{
    let sep = chars::chars_of("//");
    match chars::second_piece(u, &sep) {
        Some(rest) => chars::before_any(&rest, &one_char('/')),
        None => chars::slice(u, 0, u.len()),
    }
}

/// The host part of a URL: the text between the first `//` and the next `/`,
/// or the whole text when it has no `//`.
pub fn host_of(u: &str) -> (r: String)
    ensures
        r@ == host_of_spec(u@),
{
    let v = chars::chars_of(u);
    let h = host_of_chars(&v);
    chars::string_of(&h)
}

// ---------------------------------------------------------------------------
// Laws
// ---------------------------------------------------------------------------

/// Only http and https links are media.
pub proof fn law_only_web_links_are_media(url: Seq<char>, content_type: Seq<char>)
    requires
        !(starts_with(lower(trim(url)), "http://"@) || starts_with(lower(trim(url)), "https://"@)),
    ensures
        classify_spec(url, content_type) is None,
{
}

/// Requests to trackers, or to their beacon and log paths, are never media.
pub proof fn law_trackers_are_not_media(url: Seq<char>, content_type: Seq<char>)
    requires
        is_tracking(host_slice(lower(trim(url))), path_of(lower(trim(url)))),
    ensures
        classify_spec(url, content_type) is None,
{
}

/// Responses typed as pages, scripts, images, fonts or documents are never media.
pub proof fn law_page_resources_are_not_media(url: Seq<char>, content_type: Seq<char>)
    requires
        any_prefix(lower(trim(content_type)), non_media_ct()),
    ensures
        classify_spec(url, content_type) is None,
{
}

/// A playlist (`.m3u8`) or manifest (`.mpd`) that is classified keeps its
/// kind, whatever its content type says.
pub proof fn law_manifests_keep_their_kind(url: Seq<char>, content_type: Seq<char>)
    requires
        classify_spec(url, content_type) is Some,
    ensures
        ext_of(path_of(lower(trim(url)))) == "m3u8"@ ==> classify_spec(url, content_type) == Some(
            (MediaKind::M3u8, unknown()),
        ),
        ext_of(path_of(lower(trim(url)))) == "mpd"@ && ext_of(path_of(lower(trim(url))))
            != "m3u8"@ && !contains(lower(trim(content_type)), "mpegurl"@) ==> classify_spec(
            url,
            content_type,
        ) == Some((MediaKind::Dash, unknown())),
{
}

/// Classification ignores the case of the link and of the content type,
/// and surrounding whitespace: links that differ only in those are
/// classified alike.
pub proof fn law_classify_ignores_case(u1: Seq<char>, c1: Seq<char>, u2: Seq<char>, c2: Seq<char>)
    requires
        lower(trim(u1)) == lower(trim(u2)),
        lower(trim(c1)) == lower(trim(c2)),
    ensures
        classify_spec(u1, c1) == classify_spec(u2, c2),
{
}

/// A link of a web scheme keeps its path and host when a query or fragment
/// follows it.
proof fn lemma_suffix_keeps_path_and_host(l: Seq<char>, t: Seq<char>)
    requires
        t.len() > 0,
        t[0] == '?' || t[0] == '#',
        starts_with(l, "http://"@) || starts_with(l, "https://"@),
    ensures
        path_of(l + t) == path_of(l),
        host_slice(l + t) == host_slice(l),
{
    reveal_strlit("http://");
    reveal_strlit("https://");
    reveal_strlit("://");
    let x = l + t;
    let sep = scheme_sep();
    let m: int = if starts_with(l, "http://"@) { 4 } else { 5 };
    assert(l.subrange(m, m + 3) =~= sep) by {
        if m == 4 {
            assert(l.subrange(0, 7) == "http://"@);
            assert(l.subrange(4, 7) =~= l.subrange(0, 7).subrange(4, 7));
        } else {
            assert(l.subrange(0, 8) == "https://"@);
            assert(l.subrange(5, 8) =~= l.subrange(0, 8).subrange(5, 8));
        }
    }
    assert(occurs_at(l, sep, m));
    lemma_find_sub_some(l, sep, 0);
    let i = find_sub(l, sep, 0).unwrap();
    lemma_find_sub_prefix(l, t, sep, 0);
    assert(i + 3 <= l.len());
    let rest_l = l.skip(i + 3);
    assert(x.skip(i + 3) =~= rest_l + t);
    let rest_x = rest_l + t;
    assert(query_stops().contains(t[0]) && host_stops().contains(t[0])) by {
        if t[0] == '?' {
            assert(query_stops()[0] == '?' && host_stops()[1] == '?');
        } else {
            assert(query_stops()[1] == '#' && host_stops()[2] == '#');
        }
    }
    match find_sub(rest_l, sep, 0) {
        Some(j) => {
            lemma_find_sub_prefix(rest_l, t, sep, 0);
            lemma_find_sub_some(rest_l, sep, 0);
            assert(rest_x.take(j) =~= rest_l.take(j));
        },
        None => {
            assert(!sep.contains(t[0])) by {
                if sep.contains(t[0]) {
                    let k = choose|k: int| 0 <= k < sep.len() && sep[k] == t[0];
                }
            }
            lemma_find_sub_after(rest_l, t, sep);
            let u = match find_sub(rest_x, sep, 0) {
                Some(j) => t.take(j - rest_l.len()),
                None => t,
            };
            lemma_find_sub_some(rest_x, sep, 0);
            match find_sub(rest_x, sep, 0) {
                Some(j) => {
                    assert(j <= rest_x.len());
                    assert(rest_x.take(j) =~= rest_l + u);
                },
                None => {},
            }
            assert(u.len() > 0 && u[0] == t[0]);
            lemma_before_any_concat(rest_l, u, query_stops());
            lemma_before_any_concat(rest_l, u, host_stops());
        },
    }
}

/// A query or a fragment after a link does not change its class: for a link
/// without surrounding whitespace, `link?anything` and `link#anything` are
/// classified as the link is.
pub proof fn law_classify_ignores_query(base: Seq<char>, sep: char, q: Seq<char>, content_type: Seq<char>)
    requires
        trim(base) == base,
        sep == '?' || sep == '#',
    ensures
        classify_spec(base + seq![sep] + q, content_type) == classify_spec(base, content_type),
{
    reveal_strlit("http://");
    reveal_strlit("https://");
    let y = base + seq![sep] + q;
    let a = base + seq![sep];
    if base.len() > 0 {
        lemma_trimmed_ends(base);
        assert(y[0] == base[0]);
    } else {
        assert(y[0] == sep);
    }
    assert(trim_start(y) == y);
    assert(a.last() == sep);
    lemma_trim_end_concat(a, q);
    assert(trim(y) == a + trim_end(q));
    let t = seq![sep] + lower(trim_end(q));
    lemma_lower_concat(base, seq![sep]);
    lemma_lower_concat(a, trim_end(q));
    assert(lower(seq![sep]) =~= seq![sep]);
    let l = lower(base);
    assert(lower(trim(y)) =~= l + t);
    assert(lower(trim(base)) == l);
    let x = l + t;
    assert(t[0] == sep);
    assert(starts_with(x, "http://"@) == starts_with(l, "http://"@)) by {
        lemma_prefix_kept(l, t, "http://"@);
    }
    assert(starts_with(x, "https://"@) == starts_with(l, "https://"@)) by {
        lemma_prefix_kept(l, t, "https://"@);
    }
    if starts_with(l, "http://"@) || starts_with(l, "https://"@) {
        lemma_suffix_keeps_path_and_host(l, t);
    }
}

/// A scheme prefix (which holds neither `?` nor `#`) starts `l + t`, where
/// `t` starts with `?` or `#`, exactly when it starts `l`.
proof fn lemma_prefix_kept(l: Seq<char>, t: Seq<char>, p: Seq<char>)
    requires
        t.len() > 0,
        t[0] == '?' || t[0] == '#',
        forall|k: int| 0 <= k < p.len() ==> p[k] != '?' && p[k] != '#',
    ensures
        starts_with(l + t, p) == starts_with(l, p),
{
    if p.len() <= l.len() {
        assert((l + t).subrange(0, p.len() as int) =~= l.subrange(0, p.len() as int));
    } else if starts_with(l + t, p) {
        assert((l + t).subrange(0, p.len() as int)[l.len() as int] == t[0]);
    }
}

/// Bilibili DASH segments: for a web link whose path's last segment is
/// `<anything>-<id>.m4s` with a five-digit id starting with `30` (and whose
/// content type names no playlist, manifest or page), ids from 30200 up are
/// audio streams and the others video; the labels follow the stream table,
/// e.g. 30216 is 64K audio, 30232 132K audio, 30280 192K audio, 30080 1080P
/// video and 30120 4K video.
pub proof fn law_bilibili_dash_ids(url: Seq<char>, content_type: Seq<char>, id: Seq<char>)
    requires
        starts_with(lower(trim(url)), "http://"@) || starts_with(lower(trim(url)), "https://"@),
        path_of(lower(trim(url))).len() > 0,
        !is_tracking(host_slice(lower(trim(url))), path_of(lower(trim(url)))),
        !any_prefix(lower(trim(content_type)), non_media_ct()),
        !contains(lower(trim(content_type)), "mpegurl"@),
        !contains(lower(trim(content_type)), "dash+xml"@),
        ext_of(path_of(lower(trim(url)))) == "m4s"@,
        bili_id(path_of(lower(trim(url)))) == id,
        id.len() == 5,
        all_digits(id),
        id[0] == '3',
        id[1] == '0',
    ensures
        digits_value(id) >= 30200 ==> (classify_spec(url, content_type) matches Some((k, _)) && k
            == MediaKind::Audio),
        digits_value(id) < 30200 ==> (classify_spec(url, content_type) matches Some((k, _)) && k
            == MediaKind::Mp4),
        digits_value(id) == 30216 ==> classify_spec(url, content_type) == Some(
            (MediaKind::Audio, "64K"@),
        ),
        digits_value(id) == 30232 ==> classify_spec(url, content_type) == Some(
            (MediaKind::Audio, "132K"@),
        ),
        digits_value(id) == 30280 ==> classify_spec(url, content_type) == Some(
            (MediaKind::Audio, "192K"@),
        ),
        digits_value(id) == 30080 ==> classify_spec(url, content_type) == Some(
            (MediaKind::Mp4, "1080P"@),
        ),
        digits_value(id) == 30120 ==> classify_spec(url, content_type) == Some(
            (MediaKind::Mp4, "4K"@),
        ),
{
    reveal_strlit("m4s");
    reveal_strlit("m3u8");
    reveal_strlit("mpd");
    reveal_strlit("30");
    assert(ext_of(path_of(lower(trim(url)))) != "m3u8"@);
    assert(ext_of(path_of(lower(trim(url)))) != "mpd"@) by {
        assert("m4s"@[1] != "mpd"@[1]);
    }
    assert(id.subrange(0, 2) =~= "30"@);
    assert(starts_with(id, "30"@));
    assert(dash_code(id) == Some(digits_value(id)));
}

} // verus!
