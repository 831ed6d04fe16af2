//! The decisions of the downloader: which links it fetches itself, how files
//! are named and recognised, and how tasks start.
use vstd::prelude::*;

pub use crate::bilingual::{bi, bi_part};
use crate::bilingual::{bi_part_spec, json_pair_text};
use crate::chars;
use crate::schema::{DownloadTask, TaskStatus};
use crate::sniffer::{host_of_chars, host_of_spec, host_stops, query_stops};
use crate::state::{AppState, StateView, origin_spec, opt_view, origin_with_tail, string_views};
use crate::text::{
    any_domain, any_suffix, before_any, count_alnum, decimal, digit_char, digits_value, ends_with, is_cc, lower,
    second_piece, starts_with, strip_leading, strip_trailing, strs, trim, trim_end, trim_start,
};

verus! {

// ---------------------------------------------------------------------------
// Links
// ---------------------------------------------------------------------------

pub open spec fn youtube_domains() -> Seq<Seq<char>> {
    seq!["youtube.com"@, "youtu.be"@, "youtube-nocookie.com"@]
}

fn youtube_domains_exec() -> (r: Vec<&'static str>)
    ensures
        strs(r@) == youtube_domains(),
{
    let r = vec!["youtube.com", "youtu.be", "youtube-nocookie.com"];
    assert(strs(r@) =~= youtube_domains());
    r
}

/// The text after the first `://` up to the next one (empty when there is none).
pub open spec fn after_scheme(low: Seq<char>) -> Seq<char> {
    match second_piece(low, "://"@) {
        Some(r) => r,
        None => Seq::empty(),
    }
}

fn after_scheme_exec(low: &Vec<char>) -> (r: Vec<char>)
    ensures
        r@ == after_scheme(low@),
{
    let sep = chars::chars_of("://");
    match chars::second_piece(low, &sep) {
        Some(r) => r,
        None => Vec::new(),
    }
}

/// A YouTube link: its host is one of the YouTube domains or a subdomain.
pub open spec fn is_youtube_spec(url: Seq<char>) -> bool {
    let low = lower(trim(url));
    any_domain(before_any(after_scheme(low), host_stops()), youtube_domains())
}

pub fn is_youtube(url: &str) -> (r: bool)
    ensures
        r == is_youtube_spec(url@),
{
    let u = chars::chars_of(url);
    let low = chars::lower(&chars::trim(&u));
    let rest = after_scheme_exec(&low);
    let stops = vec!['/', '?', '#'];
    assert(stops@ =~= host_stops());
    let host = chars::before_any(&rest, &stops);
    chars::any_domain(&host, &youtube_domains_exec())
}

pub open spec fn direct_exts() -> Seq<Seq<char>> {
    seq![
        ".mp4"@,
        ".m4v"@,
        ".flv"@,
        ".f4v"@,
        ".mov"@,
        ".mkv"@,
        ".webm"@,
        ".ts"@,
        ".m4s"@,
        ".mp3"@,
    ]
}

fn direct_exts_exec() -> (r: Vec<&'static str>)
    ensures
        strs(r@) == direct_exts(),
{
    let r = vec![".mp4", ".m4v", ".flv", ".f4v", ".mov", ".mkv", ".webm", ".ts", ".m4s", ".mp3"];
    assert(strs(r@) =~= direct_exts());
    r
}

/// Hosts whose links are stream URLs that the built-in downloader fetches.
pub open spec fn direct_cdns() -> Seq<Seq<char>> {
    seq![
        "douyinvod.com"@,
        "bytecdntp.com"@,
        "douyinpic.com"@,
        "zjcdn.com"@,
        "ixigua.com"@,
        "ixiguavideo.com"@,
        "bilivideo.com"@,
        "hdslb.com"@,
        "kwimgs.com"@,
        "kwaicdn.com"@,
        "yximgs.com"@,
        "gifshow.com"@,
        "tiktokcdn.com"@,
        "tiktokcdn-us.com"@,
        "tiktokcdn-eu.com"@,
        "tiktok.com"@,
        "tiktokv.com"@,
        "byteoversea.com"@,
        "xhscdn.com"@,
    ]
}

fn direct_cdns_exec() -> (r: Vec<&'static str>)
    ensures
        strs(r@) == direct_cdns(),
{
    let r = vec![
        "douyinvod.com",
        "bytecdntp.com",
        "douyinpic.com",
        "zjcdn.com",
        "ixigua.com",
        "ixiguavideo.com",
        "bilivideo.com",
        "hdslb.com",
        "kwimgs.com",
        "kwaicdn.com",
        "yximgs.com",
        "gifshow.com",
        "tiktokcdn.com",
        "tiktokcdn-us.com",
        "tiktokcdn-eu.com",
        "tiktok.com",
        "tiktokv.com",
        "byteoversea.com",
        "xhscdn.com",
    ];
    assert(strs(r@) =~= direct_cdns());
    r
}

/// A link that the built-in downloader fetches directly: an http(s) link
/// whose path ends in a media extension, or whose host is a media CDN.
pub open spec fn is_direct_media_spec(url: Seq<char>) -> bool {
    let low = lower(trim(url));
    &&& (starts_with(low, "http://"@) || starts_with(low, "https://"@))
    &&& (any_suffix(before_any(low, query_stops()), direct_exts()) || any_domain(
        before_any(after_scheme(low), seq!['/']),
        direct_cdns(),
    ))
}

pub fn is_direct_media(url: &str) -> (r: bool)
    ensures
        r == is_direct_media_spec(url@),
{
    let u = chars::chars_of(url);
    let low = chars::lower(&chars::trim(&u));
    if !(chars::starts_with_str(&low, "http://") || chars::starts_with_str(&low, "https://")) {
        return false;
    }
    let qs = vec!['?', '#'];
    assert(qs@ =~= query_stops());
    let path = chars::before_any(&low, &qs);
    if chars::any_suffix(&path, &direct_exts_exec()) {
        return true;
    }
    let rest = after_scheme_exec(&low);
    let slash = vec!['/'];
    assert(slash@ =~= seq!['/']);
    let host = chars::before_any(&rest, &slash);
    chars::any_domain(&host, &direct_cdns_exec())
}

/// `scheme://host` of a URL, the value of an `Origin` header.
pub fn origin_of_str(u: &str) -> (r: Option<String>)
    ensures
        opt_view(r) == origin_spec(u@, Seq::empty()),
{
    proof {
        assert(""@ =~= Seq::<char>::empty()) by {
            reveal_strlit("");
        }
    }
    origin_with_tail(u, "")
}

pub open spec fn known_exts() -> Seq<Seq<char>> {
    seq!["mp4"@, "m4v"@, "flv"@, "f4v"@, "mov"@, "mkv"@, "webm"@, "ts"@, "m4s"@, "mp3"@]
}

fn known_exts_exec() -> (r: Vec<&'static str>)
    ensures
        strs(r@) == known_exts(),
{
    let r = vec!["mp4", "m4v", "flv", "f4v", "mov", "mkv", "webm", "ts", "m4s", "mp3"];
    assert(strs(r@) =~= known_exts());
    r
}

/// Content-type fragments and the extension that each stands for.
pub open spec fn ct_exts() -> Seq<(Seq<char>, Seq<char>)> {
    seq![
        ("flv"@, "flv"@),
        ("mp2t"@, "ts"@),
        ("mpeg-ts"@, "ts"@),
        ("webm"@, "webm"@),
        ("matroska"@, "mkv"@),
        ("quicktime"@, "mov"@),
        ("audio/"@, "m4a"@),
    ]
}

fn ct_exts_exec() -> (r: Vec<(&'static str, &'static str)>)
    ensures
        r@.len() == ct_exts().len(),
        forall|i: int| 0 <= i < r@.len() ==> (#[trigger] r@[i]).0@ == ct_exts()[i].0 && r@[i].1@
            == ct_exts()[i].1,
{
    vec![
        ("flv", "flv"),
        ("mp2t", "ts"),
        ("mpeg-ts", "ts"),
        ("webm", "webm"),
        ("matroska", "mkv"),
        ("quicktime", "mov"),
        ("audio/", "m4a"),
    ]
}

/// The first extension `e` of `exts` (from `start`) such that the path ends in `.e`.
pub open spec fn first_ext_suffix(path: Seq<char>, exts: Seq<Seq<char>>, start: int) -> Option<
    Seq<char>,
>
    decreases exts.len() - start,
{
    if start < 0 || start >= exts.len() {
        None
    } else if ends_with(path, seq!['.'] + exts[start]) {
        Some(exts[start])
    } else {
        first_ext_suffix(path, exts, start + 1)
    }
}

/// The extension of the first content-type fragment (from `start`) found in `ct`.
pub open spec fn first_ct_ext(ct: Seq<char>, start: int) -> Option<Seq<char>>
    decreases ct_exts().len() - start,
{
    if start < 0 || start >= ct_exts().len() {
        None
    } else if crate::text::contains(ct, ct_exts()[start].0) {
        Some(ct_exts()[start].1)
    } else {
        first_ct_ext(ct, start + 1)
    }
}

/// The extension a downloaded file gets: the URL's own known extension, else
/// one read from the content type, else `mp4`.
pub open spec fn guess_ext_spec(url: Seq<char>, ct: Seq<char>) -> Seq<char> {
    let path = lower(before_any(url, query_stops()));
    match first_ext_suffix(path, known_exts(), 0) {
        Some(e) => e,
        None => match first_ct_ext(ct, 0) {
            Some(e) => e,
            None => "mp4"@,
        },
    }
}

pub fn guess_ext(url: &str, ct: &str) -> (r: String)
    ensures
        r@ == guess_ext_spec(url@, ct@),
{
    let u = chars::chars_of(url);
    let qs = vec!['?', '#'];
    assert(qs@ =~= query_stops());
    let path = chars::lower(&chars::before_any(&u, &qs));
    let exts = known_exts_exec();
    let mut i: usize = 0;
    while i < exts.len()
        invariant
            i <= exts@.len(),
            strs(exts@) == known_exts(),
            path@ == lower(before_any(url@, query_stops())),
            first_ext_suffix(path@, known_exts(), 0) == first_ext_suffix(
                path@,
                known_exts(),
                i as int,
            ),
        decreases exts.len() - i,
    {
        let mut dotted: Vec<char> = Vec::new();
        dotted.push('.');
        chars::append_str(&mut dotted, exts[i]);
        assert(dotted@ =~= seq!['.'] + strs(exts@)[i as int]);
        if chars::ends_with(&path, &dotted) {
            return chars::owned(exts[i]);
        }
        i = i + 1;
    }
    let c = chars::chars_of(ct);
    let pairs = ct_exts_exec();
    let mut j: usize = 0;
    while j < pairs.len()
        invariant
            j <= pairs@.len(),
            pairs@.len() == ct_exts().len(),
            forall|a: int|
                0 <= a < pairs@.len() ==> (#[trigger] pairs@[a]).0@ == ct_exts()[a].0
                    && pairs@[a].1@ == ct_exts()[a].1,
            path@ == lower(before_any(url@, query_stops())),
            first_ext_suffix(path@, known_exts(), 0) is None,
            c@ == ct@,
            first_ct_ext(c@, 0) == first_ct_ext(c@, j as int),
        decreases pairs.len() - j,
    {
        if chars::contains_str(&c, pairs[j].0) {
            return chars::owned(pairs[j].1);
        }
        j = j + 1;
    }
    chars::owned("mp4")
}

// ---------------------------------------------------------------------------
// Files
// ---------------------------------------------------------------------------

/// The characters that a file name may not hold on the desktop systems.
pub open spec fn reserved_chars() -> Seq<char> {
    seq!['\\', '/', ':', '*', '?', '"', '<', '>', '|', '%']
}

pub open spec fn is_reserved(c: char) -> bool {
    is_cc(c) || reserved_chars().contains(c)
}

pub open spec fn scrub(s: Seq<char>) -> Seq<char> {
    s.map_values(
        |c: char|
            if is_reserved(c) {
                '_'
            } else {
                c
            },
    )
}

/// A title made safe as a file name: reserved and control characters become
/// `_`; surrounding whitespace and dots go; at most 80 characters stay.
pub open spec fn sanitize_spec(s: Seq<char>) -> Seq<char> {
    let t = trim(strip_trailing(strip_leading(trim(scrub(s)), '.'), '.'));
    let t2 = if t.len() > 80 {
        t.take(80)
    } else {
        t
    };
    trim(t2)
}

proof fn lemma_trim_start_skip(s: Seq<char>) -> (k: int)
    ensures
        0 <= k <= s.len(),
        trim_start(s) == s.skip(k),
    decreases s.len(),
{
    if s.len() > 0 && crate::text::is_ws(s[0]) {
        let k = lemma_trim_start_skip(s.drop_first());
        assert(s.drop_first().skip(k) =~= s.skip(k + 1));
        k + 1
    } else {
        assert(s.skip(0) =~= s);
        0
    }
}

proof fn lemma_trim_end_take(s: Seq<char>) -> (k: int)
    ensures
        0 <= k <= s.len(),
        trim_end(s) == s.take(k),
    decreases s.len(),
{
    if s.len() > 0 && crate::text::is_ws(s.last()) {
        let k = lemma_trim_end_take(s.drop_last());
        assert(s.drop_last().take(k) =~= s.take(k));
        k
    } else {
        assert(s.take(s.len() as int) =~= s);
        s.len() as int
    }
}

proof fn lemma_strip_leading_skip(s: Seq<char>, c: char) -> (k: int)
    ensures
        0 <= k <= s.len(),
        strip_leading(s, c) == s.skip(k),
    decreases s.len(),
{
    if s.len() > 0 && s[0] == c {
        let k = lemma_strip_leading_skip(s.drop_first(), c);
        assert(s.drop_first().skip(k) =~= s.skip(k + 1));
        k + 1
    } else {
        assert(s.skip(0) =~= s);
        0
    }
}

proof fn lemma_strip_trailing_take(s: Seq<char>, c: char) -> (k: int)
    ensures
        0 <= k <= s.len(),
        strip_trailing(s, c) == s.take(k),
    decreases s.len(),
{
    if s.len() > 0 && s.last() == c {
        let k = lemma_strip_trailing_take(s.drop_last(), c);
        assert(s.drop_last().take(k) =~= s.take(k));
        k
    } else {
        assert(s.take(s.len() as int) =~= s);
        s.len() as int
    }
}

/// The characters of a piece of `s` all satisfy what those of `s` satisfy.
proof fn lemma_trim_chars(s: Seq<char>)
    ensures
        forall|i: int|
            0 <= i < trim(s).len() ==> exists|j: int| 0 <= j < s.len() && s[j] == #[trigger] trim(s)[i],
        trim(s).len() <= s.len(),
{
    let a = lemma_trim_start_skip(s);
    let t = s.skip(a);
    let b = lemma_trim_end_take(t);
    assert forall|i: int| 0 <= i < trim(s).len() implies exists|j: int|
        0 <= j < s.len() && s[j] == #[trigger] trim(s)[i] by {
        assert(trim(s)[i] == s[a + i]);
    }
}

proof fn lemma_strip_both_chars(s: Seq<char>, c: char)
    ensures
        forall|i: int|
            0 <= i < strip_trailing(strip_leading(s, c), c).len() ==> exists|j: int|
                0 <= j < s.len() && s[j] == #[trigger] strip_trailing(strip_leading(s, c), c)[i],
{
    let a = lemma_strip_leading_skip(s, c);
    let t = s.skip(a);
    let b = lemma_strip_trailing_take(t, c);
    let r = strip_trailing(strip_leading(s, c), c);
    assert forall|i: int| 0 <= i < r.len() implies exists|j: int|
        0 <= j < s.len() && s[j] == #[trigger] r[i] by {
        assert(r[i] == s[a + i]);
    }
}

/// No reserved character survives `sanitize`, and its result is at most 80
/// characters long.
pub proof fn law_sanitized_names_are_safe(s: Seq<char>)
    ensures
        sanitize_spec(s).len() <= 80,
        forall|i: int| 0 <= i < sanitize_spec(s).len() ==> !is_reserved(#[trigger] sanitize_spec(s)[i]),
{
    let x0 = scrub(s);
    assert forall|i: int| 0 <= i < x0.len() implies !is_reserved(#[trigger] x0[i]) by {
        if is_reserved(s[i]) {
            assert(x0[i] == '_');
            assert(!reserved_chars().contains('_')) by {
                assert forall|k: int| 0 <= k < reserved_chars().len() implies reserved_chars()[k]
                    != '_' by {}
            }
        }
    }
    let x1 = trim(x0);
    lemma_trim_chars(x0);
    let x2 = strip_trailing(strip_leading(x1, '.'), '.');
    lemma_strip_both_chars(x1, '.');
    let t = trim(x2);
    lemma_trim_chars(x2);
    let t2 = if t.len() > 80 {
        t.take(80)
    } else {
        t
    };
    lemma_trim_chars(t2);
    assert forall|i: int| 0 <= i < t.len() implies !is_reserved(#[trigger] t[i]) by {
        let j = choose|j: int| 0 <= j < x2.len() && x2[j] == t[i];
        let k = choose|k: int| 0 <= k < x1.len() && x1[k] == x2[j];
        let m = choose|m: int| 0 <= m < x0.len() && x0[m] == x1[k];
    }
    assert forall|i: int| 0 <= i < t2.len() implies !is_reserved(#[trigger] t2[i]) by {
        assert(t2[i] == t[i]);
    }
    assert forall|i: int| 0 <= i < sanitize_spec(s).len() implies !is_reserved(
        #[trigger] sanitize_spec(s)[i],
    ) by {
        let j = choose|j: int| 0 <= j < t2.len() && t2[j] == sanitize_spec(s)[i];
    }
}

fn is_reserved_exec(c: char) -> (r: bool)
    ensures
        r == is_reserved(c),
{
    if chars::is_control(c) {
        return true;
    }
    let rs = vec!['\\', '/', ':', '*', '?', '"', '<', '>', '|', '%'];
    assert(rs@ =~= reserved_chars());
    chars::has_char(&rs, c)
}

/// Makes a title usable as a file name.
pub fn sanitize(s: &str) -> (r: String)
    ensures
        r@ == sanitize_spec(s@),
        r@.len() <= 80,
        forall|i: int| 0 <= i < r@.len() ==> !is_reserved(#[trigger] r@[i]),
{
    let v = chars::chars_of(s);
    let mut cleaned: Vec<char> = Vec::new();
    let mut i: usize = 0;
    while i < v.len()
        invariant
            i <= v@.len(),
            cleaned@ =~= scrub(v@.take(i as int)),
        decreases v.len() - i,
    {
        let c = v[i];
        let d = if is_reserved_exec(c) {
            '_'
        } else {
            c
        };
        cleaned.push(d);
        assert(scrub(v@.take(i + 1)) =~= scrub(v@.take(i as int)).push(d));
        i = i + 1;
    }
    assert(v@.take(v@.len() as int) =~= v@);
    let t0 = chars::trim(&cleaned);
    let t1 = chars::strip_trailing(&chars::strip_leading(&t0, '.'), '.');
    let t = chars::trim(&t1);
    let t2 = if t.len() > 80 {
        chars::slice(&t, 0, 80)
    } else {
        t
    };
    let out = chars::trim(&t2);
    proof {
        law_sanitized_names_are_safe(s@);
    }
    chars::string_of(&out)
}

/// The name a download falls back to: the last path segment when it holds at
/// least four ASCII letters or digits (cut to 60 characters), else the host.
pub open spec fn short_title_spec(url: Seq<char>) -> Seq<char> {
    let base = before_any(url, query_stops());
    let seg = crate::text::after_last(strip_trailing(base, '/'), '/');
    if seg.len() > 0 && count_alnum(seg) >= 4 {
        if seg.len() > 60 {
            seg.take(60)
        } else {
            seg
        }
    } else {
        host_of_spec(url)
    }
}

pub fn short_title(url: &str) -> (r: String)
    ensures
        r@ == short_title_spec(url@),
{
    let u = chars::chars_of(url);
    let qs = vec!['?', '#'];
    assert(qs@ =~= query_stops());
    let base = chars::before_any(&u, &qs);
    let seg = chars::after_last(&chars::strip_trailing(&base, '/'), '/');
    if seg.len() > 0 && chars::count_alnum(&seg) >= 4 {
        if seg.len() > 60 {
            chars::string_of(&chars::slice(&seg, 0, 60))
        } else {
            chars::string_of(&seg)
        }
    } else {
        chars::string_of(&host_of_chars(&u))
    }
}

/// `needle` occurs in `hay`.
pub open spec fn bytes_contain(hay: Seq<u8>, needle: Seq<u8>) -> bool {
    exists|i: int| #[trigger] bytes_occur_at(hay, needle, i)
}

pub open spec fn bytes_occur_at(hay: Seq<u8>, needle: Seq<u8>, i: int) -> bool {
    0 <= i && i + needle.len() <= hay.len() && hay.subrange(i, i + needle.len()) == needle
}

/// Whether `needle` (non-empty) occurs in `hay`.
pub fn contains(hay: &[u8], needle: &[u8]) -> (r: bool)
    requires
        needle@.len() > 0,
    ensures
        r == bytes_contain(hay@, needle@),
{
    let n = needle.len();
    if n > hay.len() {
        return false;
    }
    let mut i: usize = 0;
    while i <= hay.len() - n
        invariant
            n == needle@.len(),
            n <= hay@.len(),
            n <= hay.len(),
            i <= hay@.len() - n + 1,
            forall|j: int| 0 <= j < i ==> !#[trigger] bytes_occur_at(hay@, needle@, j),
        decreases hay.len() - i,
    {
        let mut k: usize = 0;
        let mut same = true;
        while k < n
            invariant
                k <= n,
                n == needle@.len(),
                i + n <= hay@.len(),
                i + n <= hay.len(),
                same == (forall|m: int| 0 <= m < k ==> hay@[i + m] == needle@[m]),
            decreases n - k,
        {
            if hay[i + k] != needle[k] {
                same = false;
            }
            k = k + 1;
        }
        if same {
            assert(hay@.subrange(i as int, i + n) =~= needle@);
            assert(bytes_occur_at(hay@, needle@, i as int));
            return true;
        }
        assert(hay@.subrange(i as int, i + n) != needle@) by {
            let m = choose|m: int| 0 <= m < n && hay@[i + m] != needle@[m];
            assert(hay@.subrange(i as int, i + n)[m] == hay@[i + m]);
        }
        i = i + 1;
    }
    assert forall|j: int| !#[trigger] bytes_occur_at(hay@, needle@, j) by {
        if 0 <= j && j + needle@.len() <= hay@.len() {
            assert(j < i);
        }
    }
    false
}

/// What the first bytes of a file say its format is.
pub open spec fn sniff_ext_spec(h: Seq<u8>) -> Option<Seq<char>> {
    if h.len() < 4 {
        None
    } else if h.len() >= 8 && h.subrange(4, 8) == seq![0x66u8, 0x74u8, 0x79u8, 0x70u8] {
        Some("mp4"@)
    } else if h.subrange(0, 3) == seq![0x46u8, 0x4cu8, 0x56u8] {
        Some("flv"@)
    } else if h.subrange(0, 4) == seq![0x1au8, 0x45u8, 0xdfu8, 0xa3u8] {
        if bytes_contain(h, seq![0x77u8, 0x65u8, 0x62u8, 0x6du8]) {
            Some("webm"@)
        } else {
            Some("mkv"@)
        }
    } else if h[0] == 0x47u8 {
        Some("ts"@)
    } else {
        None
    }
}

fn bytes_at(h: &[u8], at: usize, pat: &Vec<u8>) -> (r: bool)
    requires
        at + pat@.len() <= h@.len(),
    ensures
        r == (h@.subrange(at as int, at + pat@.len()) == pat@),
{
    let mut k: usize = 0;
    while k < pat.len()
        invariant
            k <= pat@.len(),
            at + pat@.len() <= h@.len(),
            at + pat.len() <= h.len(),
            forall|m: int| 0 <= m < k ==> h@[at + m] == pat@[m],
        decreases pat.len() - k,
    {
        if h[at + k] != pat[k] {
            assert(h@.subrange(at as int, at + pat@.len())[k as int] != pat@[k as int]);
            return false;
        }
        k = k + 1;
    }
    assert(h@.subrange(at as int, at + pat@.len()) =~= pat@);
    true
}

/// The format of a file from its first bytes: MP4 (`ftyp` box), FLV,
/// Matroska/WebM, MPEG-TS; `None` when none matches.
pub fn sniff_ext(h: &[u8]) -> (r: Option<&'static str>)
    ensures
        match r {
            Some(e) => sniff_ext_spec(h@) == Some(e@),
            None => sniff_ext_spec(h@) is None,
        },
{
    if h.len() < 4 {
        return None;
    }
    let ftyp: Vec<u8> = vec![0x66u8, 0x74u8, 0x79u8, 0x70u8];
    assert(ftyp@ =~= seq![0x66u8, 0x74u8, 0x79u8, 0x70u8]);
    if h.len() >= 8 && bytes_at(h, 4, &ftyp) {
        return Some("mp4");
    }
    let flv: Vec<u8> = vec![0x46u8, 0x4cu8, 0x56u8];
    assert(flv@ =~= seq![0x46u8, 0x4cu8, 0x56u8]);
    if bytes_at(h, 0, &flv) {
        return Some("flv");
    }
    let ebml: Vec<u8> = vec![0x1au8, 0x45u8, 0xdfu8, 0xa3u8];
    assert(ebml@ =~= seq![0x1au8, 0x45u8, 0xdfu8, 0xa3u8]);
    if bytes_at(h, 0, &ebml) {
        let webm: Vec<u8> = vec![0x77u8, 0x65u8, 0x62u8, 0x6du8];
        assert(webm@ =~= seq![0x77u8, 0x65u8, 0x62u8, 0x6du8]);
        if contains(h, webm.as_slice()) {
            return Some("webm");
        } else {
            return Some("mkv");
        }
    }
    if h[0] == 0x47u8 {
        return Some("ts");
    }
    None
}

pub open spec fn is_texty(b: u8) -> bool {
    (0x21 <= b && b <= 0x7e) || b == 10 || b == 13 || b == 9
}

/// A downloaded file is media when it has at least 1 KiB and its first
/// bytes are not all printable ASCII (a page or an error text is).
pub open spec fn looks_like_media_spec(len: u64, head: Seq<u8>) -> bool {
    len >= 1024 && head.len() > 0 && exists|i: int| 0 <= i < head.len() && !is_texty(#[trigger] head[i])
}

pub fn looks_like_media(len: u64, head: &[u8]) -> (r: bool)
    ensures
        r == looks_like_media_spec(len, head@),
{
    if len < 1024 || head.len() == 0 {
        return false;
    }
    let mut i: usize = 0;
    while i < head.len()
        invariant
            i <= head@.len(),
            len >= 1024,
            head@.len() > 0,
            forall|j: int| 0 <= j < i ==> is_texty(#[trigger] head@[j]),
        decreases head.len() - i,
    {
        let b = head[i];
        if !((0x21 <= b && b <= 0x7e) || b == 10 || b == 13 || b == 9) {
            assert(!is_texty(head@[i as int]));
            return true;
        }
        i = i + 1;
    }
    false
}

/// `{id}__`, the prefix of every file that task `id` writes.
pub open spec fn task_prefix(id: Seq<char>) -> Seq<char> {
    id + "__"@
}

fn task_prefix_exec(id: &str) -> (r: Vec<char>)
    ensures
        r@ == task_prefix(id@),
{
    let mut p = chars::chars_of(id);
    chars::append_str(&mut p, "__");
    p
}

/// A leftover partial download of task `id`.
pub open spec fn is_stale_part_spec(id: Seq<char>, name: Seq<char>) -> bool {
    starts_with(name, task_prefix(id)) && ends_with(lower(name), ".part"@)
}

pub fn is_stale_part(id: &str, name: &str) -> (r: bool)
    ensures
        r == is_stale_part_spec(id@, name@),
{
    let n = chars::chars_of(name);
    let p = task_prefix_exec(id);
    chars::starts_with(&n, &p) && chars::ends_with_str(&chars::lower(&n), ".part")
}

/// A finished output of task `id`: its file, not a partial or temporary one.
pub open spec fn is_output_spec(id: Seq<char>, name: Seq<char>) -> bool {
    let low = lower(name);
    starts_with(name, task_prefix(id)) && !ends_with(low, ".part"@) && !ends_with(low, ".ytdl"@)
        && !ends_with(low, ".temp"@)
}

fn is_output(id: &str, name: &String) -> (r: bool)
    ensures
        r == is_output_spec(id@, name@),
{
    let n = chars::chars_of(name.as_str());
    let p = task_prefix_exec(id);
    if !chars::starts_with(&n, &p) {
        return false;
    }
    let low = chars::lower(&n);
    !chars::ends_with_str(&low, ".part") && !chars::ends_with_str(&low, ".ytdl")
        && !chars::ends_with_str(&low, ".temp")
}

/// The output that task `id` left among the files of a folder (names and
/// sizes): the first of the largest finished outputs.
pub fn pick_output(id: &str, names: &[String], lens: &[u64]) -> (r: Option<usize>)
    requires
        names@.len() == lens@.len(),
    ensures
        match r {
            Some(k) => {
                &&& k < names@.len()
                &&& is_output_spec(id@, names@[k as int]@)
                &&& forall|j: int|
                    0 <= j < k && is_output_spec(id@, (#[trigger] names@[j])@) ==> lens@[j]
                        < lens@[k as int]
                &&& forall|j: int|
                    k < j < names@.len() && is_output_spec(id@, (#[trigger] names@[j])@)
                        ==> lens@[j] <= lens@[k as int]
            },
            None => forall|j: int|
                0 <= j < names@.len() ==> !is_output_spec(id@, (#[trigger] names@[j])@),
        },
{
    let mut best: Option<usize> = None;
    let mut i: usize = 0;
    while i < names.len()
        invariant
            i <= names@.len(),
            names@.len() == lens@.len(),
            match best {
                Some(k) => {
                    &&& k < i
                    &&& is_output_spec(id@, names@[k as int]@)
                    &&& forall|j: int|
                        0 <= j < k && is_output_spec(id@, (#[trigger] names@[j])@) ==> lens@[j]
                            < lens@[k as int]
                    &&& forall|j: int|
                        k < j < i && is_output_spec(id@, (#[trigger] names@[j])@) ==> lens@[j]
                            <= lens@[k as int]
                },
                None => forall|j: int| 0 <= j < i ==> !is_output_spec(id@, (#[trigger] names@[j])@),
            },
        decreases names.len() - i,
    {
        if is_output(id, &names[i]) {
            let take = match best {
                Some(k) => lens[i] > lens[k],
                None => true,
            };
            if take {
                best = Some(i);
            }
        }
        i = i + 1;
    }
    best
}

/// The base of a finished file's name: the capture page's title when there
/// is one, else the given fallback, else the link's host; made safe; the
/// downloaded file's own stem when that leaves nothing.
pub open spec fn file_base_spec(
    cap_title: Seq<char>,
    fallback: Option<Seq<char>>,
    url: Seq<char>,
    raw_stem: Seq<char>,
) -> Seq<char> {
    let raw = if trim(cap_title).len() > 0 {
        cap_title
    } else {
        match fallback {
            Some(f) => f,
            None => host_of_spec(url),
        }
    };
    if sanitize_spec(raw).len() > 0 {
        sanitize_spec(raw)
    } else {
        sanitize_spec(raw_stem)
    }
}

pub fn file_base(cap_title: &str, fallback: Option<String>, url: &str, raw_stem: &str) -> (r:
    String)
    ensures
        r@ == file_base_spec(cap_title@, opt_view(fallback), url@, raw_stem@),
{
    let cap = chars::chars_of(cap_title);
    let raw = if chars::trim(&cap).len() > 0 {
        chars::owned(cap_title)
    } else {
        match fallback {
            Some(f) => f,
            None => crate::sniffer::host_of(url),
        }
    };
    let base = sanitize(raw.as_str());
    if base.as_str().unicode_len() > 0 {
        base
    } else {
        sanitize(raw_stem)
    }
}

/// The `n`-th candidate name of a finished file: `base.ext`, then
/// `base (1).ext`, `base (2).ext`, ...
pub open spec fn candidate_name_spec(base: Seq<char>, ext: Seq<char>, n: nat) -> Seq<char> {
    if n == 0 {
        base + "."@ + ext
    } else {
        base + " ("@ + decimal(n) + ")."@ + ext
    }
}

pub fn candidate_name(base: &str, ext: &str, n: u64) -> (r: String)
    ensures
        r@ == candidate_name_spec(base@, ext@, n as nat),
{
    let mut v = chars::chars_of(base);
    if n == 0 {
        chars::append_str(&mut v, ".");
    } else {
        chars::append_str(&mut v, " (");
        let d = chars::decimal(n as u128);
        chars::append(&mut v, &d);
        chars::append_str(&mut v, ").");
    }
    chars::append_str(&mut v, ext);
    chars::string_of(&v)
}

// ---------------------------------------------------------------------------
// Starting a task
// ---------------------------------------------------------------------------

/// The id of a task started at `now` (milliseconds since the epoch).
pub fn task_id(now: u128) -> (r: String)
    ensures
        r@ == "task_"@ + decimal(now as nat),
{
    let mut v = chars::chars_of("task_");
    let d = chars::decimal(now);
    chars::append(&mut v, &d);
    chars::string_of(&v)
}

/// The folder the user chose, trimmed; `None` when blank (the default folder applies).
pub fn chosen_out_dir(out_dir: &str) -> (r: Option<String>)
    ensures
        opt_view(r) == (if trim(out_dir@).len() == 0 {
            None
        } else {
            Some(trim(out_dir@))
        }),
{
    let v = chars::chars_of(out_dir);
    let t = chars::trim(&v);
    if t.len() == 0 {
        None
    } else {
        Some(chars::string_of(&t))
    }
}

/// A new task's title: the capture page's title when it is not blank, else a
/// short title taken from the link.
pub fn task_title(cap_title: String, url: &str) -> (r: String)
    ensures
        r@ == (if trim(cap_title@).len() == 0 {
            short_title_spec(url@)
        } else {
            cap_title@
        }),
{
    let c = chars::chars_of(cap_title.as_str());
    if chars::trim(&c).len() == 0 {
        short_title(url)
    } else {
        cap_title
    }
}

/// A task as it is queued: nothing downloaded yet, no error, no file.
pub fn new_task(
    id: String,
    url: String,
    title: String,
    out_path: String,
    format: Option<String>,
    pair_url: String,
) -> (r: DownloadTask)
    ensures
        r.id == id,
        r.url == url,
        r.title == title,
        r.out_path == out_path,
        r.status == TaskStatus::Queued,
        r.progress_bits == 0,
        r.speed_bits == 0,
        r.downloaded == 0,
        r.total == 0,
        r.error@ == Seq::<char>::empty(),
        r.format == format,
        r.file_path@ == Seq::<char>::empty(),
        r.pair_url == pair_url,
{
    DownloadTask {
        id,
        url,
        title,
        out_path,
        status: TaskStatus::Queued,
        progress_bits: 0,
        speed_bits: 0,
        downloaded: 0,
        total: 0,
        error: String::new(),
        format,
        file_path: String::new(),
        pair_url,
    }
}

pub open spec fn is_active(s: TaskStatus) -> bool {
    s == TaskStatus::Queued || s == TaskStatus::Downloading || s == TaskStatus::Merging
}

impl AppState {
    /// A task of this link that is still queued, downloading or merging; a
    /// second request for the link joins it instead of starting another.
    pub fn active_task_for(&self, url: &str) -> (r: Option<String>)
        requires
            self.wf(),
        ensures
            match r {
                Some(id) => self@.tasks.contains_key(id@) && self@.tasks[id@].url@ == url@
                    && is_active(self@.tasks[id@].status),
                None => forall|k: Seq<char>|
                    #[trigger] self@.tasks.contains_key(k) ==> !(self@.tasks[k].url@ == url@
                        && is_active(self@.tasks[k].status)),
            },
    {
        let ts = self.tasks();
        let u = chars::owned(url);
        let mut i: usize = 0;
        while i < ts.len()
            invariant
                i <= ts@.len(),
                u@ == url@,
                forall|a: int|
                    0 <= a < ts@.len() ==> self@.tasks.contains_key((#[trigger] ts@[a]).id@)
                        && self@.tasks[ts@[a].id@] == ts@[a],
                forall|a: int|
                    0 <= a < i ==> !((#[trigger] ts@[a]).url@ == url@ && is_active(ts@[a].status)),
            decreases ts.len() - i,
        {
            let t = &ts[i];
            if t.url == u && (t.status == TaskStatus::Queued || t.status == TaskStatus::Downloading
                || t.status == TaskStatus::Merging) {
                return Some(t.id.clone());
            }
            i = i + 1;
        }
        proof {
            assert forall|k: Seq<char>| #[trigger] self@.tasks.contains_key(k) implies !(
            self@.tasks[k].url@ == url@ && is_active(self@.tasks[k].status)) by {
                let a = choose|a: int| 0 <= a < ts@.len() && (#[trigger] ts@[a]).id@ == k;
                assert(self@.tasks[ts@[a].id@] == ts@[a]);
            }
        }
        None
    }

    /// The finished tasks of this link that name a file, as (id, file) pairs:
    /// the candidates for answering a request with a download already made.
    pub fn finished_tasks_for(&self, url: &str) -> (r: Vec<(String, String)>)
        requires
            self.wf(),
        ensures
            forall|i: int|
                0 <= i < r@.len() ==> {
                    let t = self@.tasks[(#[trigger] r@[i]).0@];
                    &&& self@.tasks.contains_key(r@[i].0@)
                    &&& t.url@ == url@
                    &&& t.status == TaskStatus::Done
                    &&& t.file_path@.len() > 0
                    &&& r@[i].1 == t.file_path
                },
            forall|k: Seq<char>|
                #[trigger] self@.tasks.contains_key(k) && self@.tasks[k].url@ == url@
                    && self@.tasks[k].status == TaskStatus::Done && self@.tasks[k].file_path@.len()
                    > 0 ==> exists|i: int| 0 <= i < r@.len() && (#[trigger] r@[i]).0@ == k,
    {
        let ts = self.tasks();
        let u = chars::owned(url);
        let mut out: Vec<(String, String)> = Vec::new();
        let mut i: usize = 0;
        while i < ts.len()
            invariant
                i <= ts@.len(),
                u@ == url@,
                forall|a: int|
                    0 <= a < ts@.len() ==> self@.tasks.contains_key((#[trigger] ts@[a]).id@)
                        && self@.tasks[ts@[a].id@] == ts@[a],
                forall|a: int|
                    0 <= a < out@.len() ==> {
                        let t = self@.tasks[(#[trigger] out@[a]).0@];
                        &&& self@.tasks.contains_key(out@[a].0@)
                        &&& t.url@ == url@
                        &&& t.status == TaskStatus::Done
                        &&& t.file_path@.len() > 0
                        &&& out@[a].1 == t.file_path
                    },
                forall|a: int|
                    0 <= a < i && (#[trigger] ts@[a]).url@ == url@ && ts@[a].status
                        == TaskStatus::Done && ts@[a].file_path@.len() > 0 ==> exists|b: int|
                        0 <= b < out@.len() && (#[trigger] out@[b]).0@ == ts@[a].id@,
            decreases ts.len() - i,
        {
            let t = &ts[i];
            if t.url == u && t.status == TaskStatus::Done && t.file_path.as_str().unicode_len()
                > 0 {
                let ghost o0 = out@;
                out.push((t.id.clone(), t.file_path.clone()));
                proof {
                    assert forall|a: int|
                        0 <= a < i + 1 && (#[trigger] ts@[a]).url@ == url@ && ts@[a].status
                            == TaskStatus::Done && ts@[a].file_path@.len() > 0 implies exists|
                        b: int,
                    | 0 <= b < out@.len() && (#[trigger] out@[b]).0@ == ts@[a].id@ by {
                        if a < i {
                            let b = choose|b: int|
                                0 <= b < o0.len() && (#[trigger] o0[b]).0@ == ts@[a].id@;
                            assert(out@[b] == o0[b]);
                        } else {
                            assert(out@[o0.len() as int].0@ == ts@[a].id@);
                        }
                    }
                }
            }
            i = i + 1;
        }
        proof {
            assert forall|k: Seq<char>|
                #[trigger] self@.tasks.contains_key(k) && self@.tasks[k].url@ == url@
                    && self@.tasks[k].status == TaskStatus::Done && self@.tasks[k].file_path@.len()
                    > 0 implies exists|b: int| 0 <= b < out@.len() && (#[trigger] out@[b]).0@ == k by {
                let a = choose|a: int| 0 <= a < ts@.len() && (#[trigger] ts@[a]).id@ == k;
                assert(self@.tasks[ts@[a].id@] == ts@[a]);
            }
        }
        out
    }
}

impl AppState {
    /// After the built-in downloader ran for task `id`: yt-dlp is tried next
    /// when the task is still there, was not cancelled, and failed.
    pub fn needs_fallback(&self, id: &str) -> (r: bool)
        requires
            self.wf(),
        ensures
            r == (self@.tasks.contains_key(id@) && !(self@.cancel.contains_key(id@)
                && self@.cancel[id@]) && self@.tasks[id@].status == TaskStatus::Failed),
    {
        match self.task(id) {
            Some(t) => !self.is_cancelled(id) && t.status == TaskStatus::Failed,
            None => false,
        }
    }
}

// ---------------------------------------------------------------------------
// Error texts of the built-in downloader
// ---------------------------------------------------------------------------

/// The check of a response before its body is saved: a status that is not a
/// success fails with the status's text; a web page or text (the content
/// type, lower-cased) fails as a blocked request; anything else is saved.
pub open spec fn response_error_parts(success: bool, code: u16, content_type: Seq<char>) -> Option<
    (Seq<char>, Seq<char>),
> {
    let ct = lower(content_type);
    if !success {
        Some(crate::ytdlp::http_failure_spec(code))
    } else if crate::ytdlp::is_page_response_spec(content_type) {
        Some(
            (
                "服务器返回的是网页/文本("@ + ct
                    + ")而非视频, 多为防盗链拦截。请重新「捕获」后用可见窗口播放一次再下载。"@,
                "Server returned a web page/text ("@ + ct
                    + ") instead of video, usually hotlink protection. Re-capture, then play once in the visible window before downloading."@,
            ),
        )
    } else {
        None
    }
}

pub fn response_error(success: bool, code: u16, content_type: &str) -> (r: Option<String>)
    ensures
        match response_error_parts(success, code, content_type@) {
            Some((zh, en)) => r matches Some(m) && m@ == json_pair_text(zh, en)
                && bi_part_spec(m@) == (zh, en),
            None => r is None,
        },
{
    let ct = chars::lower(&chars::chars_of(content_type));
    if !success {
        let t = crate::ytdlp::http_failure(code);
        return Some(bi(t.zh.as_str(), t.en.as_str()));
    }
    if crate::ytdlp::is_page_response(content_type) {
        let mut zh = chars::chars_of("服务器返回的是网页/文本(");
        chars::append(&mut zh, &ct);
        chars::append_str(&mut zh, ")而非视频, 多为防盗链拦截。请重新「捕获」后用可见窗口播放一次再下载。");
        let mut en = chars::chars_of("Server returned a web page/text (");
        chars::append(&mut en, &ct);
        chars::append_str(
            &mut en,
            ") instead of video, usually hotlink protection. Re-capture, then play once in the visible window before downloading.",
        );
        let zs = chars::string_of(&zh);
        let es = chars::string_of(&en);
        Some(bi(zs.as_str(), es.as_str()))
    } else {
        None
    }
}

/// Which file turned out not to be media.
#[derive(Clone, Copy, PartialEq, Eq, Structural)]
pub enum Rejected {
    /// A file of the built-in downloader.
    Direct,
    /// The output of yt-dlp.
    YtDlp,
    /// One of the two streams of a merge.
    Stream,
    /// The merged file.
    Merged,
}

/// The error for a file of `size` bytes that is not media.
pub open spec fn rejected_parts(which: Rejected, size: u64) -> (Seq<char>, Seq<char>) {
    let n = decimal(size as nat);
    match which {
        Rejected::Direct => (
            "只拿到 "@ + n
                + " 字节的非视频内容(疑似防盗链/风控页)。请重新「捕获」后用可见窗口播放一次再下载。"@,
            "Only got "@ + n
                + " bytes of non-video content (likely hotlink protection / risk-control page). Re-capture, then play once in the visible window before downloading."@,
        ),
        Rejected::YtDlp => (
            "下载到的是 "@ + n
                + " 字节的非视频内容, 多为站点防盗链拦截。请勾选「弹窗」用可见窗口播放一次再下载, 或改用「解析」。"@,
            "Downloaded "@ + n
                + " bytes of non-video content, usually blocked by hotlink protection. Enable \"visible window\" and play once before downloading, or use the parser instead."@,
        ),
        Rejected::Stream => (
            "其中一条流只拿到 "@ + n + " 字节的非视频内容(疑似防盗链拦截)。请重新「捕获」后再合并。"@,
            "One of the streams only got "@ + n
                + " bytes of non-video content (likely hotlink protection). Re-capture before merging."@,
        ),
        Rejected::Merged => (
            "合并产物异常(仅 "@ + n + " 字节), 已丢弃。"@,
            "Merged output is abnormal (only "@ + n + " bytes), discarded."@,
        ),
    }
}

fn around(pre: &str, mid: &Vec<char>, post: &str) -> (r: String)
    ensures
        r@ == pre@ + mid@ + post@,
{
    let mut v = chars::chars_of(pre);
    chars::append(&mut v, mid);
    chars::append_str(&mut v, post);
    chars::string_of(&v)
}

pub fn rejected_error(which: Rejected, size: u64) -> (r: String)
    ensures
        r@ == json_pair_text(rejected_parts(which, size).0, rejected_parts(which, size).1),
        bi_part_spec(r@) == rejected_parts(which, size),
{
    let n = chars::decimal(size as u128);
    let (zh, en) = match which {
        Rejected::Direct => (
            around(
                "只拿到 ",
                &n,
                " 字节的非视频内容(疑似防盗链/风控页)。请重新「捕获」后用可见窗口播放一次再下载。",
            ),
            around(
                "Only got ",
                &n,
                " bytes of non-video content (likely hotlink protection / risk-control page). Re-capture, then play once in the visible window before downloading.",
            ),
        ),
        Rejected::YtDlp => (
            around(
                "下载到的是 ",
                &n,
                " 字节的非视频内容, 多为站点防盗链拦截。请勾选「弹窗」用可见窗口播放一次再下载, 或改用「解析」。",
            ),
            around(
                "Downloaded ",
                &n,
                " bytes of non-video content, usually blocked by hotlink protection. Enable \"visible window\" and play once before downloading, or use the parser instead.",
            ),
        ),
        Rejected::Stream => (
            around(
                "其中一条流只拿到 ",
                &n,
                " 字节的非视频内容(疑似防盗链拦截)。请重新「捕获」后再合并。",
            ),
            around(
                "One of the streams only got ",
                &n,
                " bytes of non-video content (likely hotlink protection). Re-capture before merging.",
            ),
        ),
        Rejected::Merged => (
            around("合并产物异常(仅 ", &n, " 字节), 已丢弃。"),
            around("Merged output is abnormal (only ", &n, " bytes), discarded."),
        ),
    };
    bi(zh.as_str(), en.as_str())
}

/// The error when one stream of a merge failed to download: which stream
/// (the video stream first, the audio stream second) and its own error.
pub open spec fn stream_failed_parts(first: bool, err: Seq<char>) -> (Seq<char>, Seq<char>) {
    let (e_zh, e_en) = bi_part_spec(err);
    if first {
        ("第一条流下载失败: "@ + e_zh, "Failed to download the video stream: "@ + e_en)
    } else {
        ("第二条流下载失败: "@ + e_zh, "Failed to download the audio stream: "@ + e_en)
    }
}

pub fn stream_failed(first: bool, err: &str) -> (r: String)
    ensures
        r@ == json_pair_text(stream_failed_parts(first, err@).0, stream_failed_parts(first, err@).1),
        bi_part_spec(r@) == stream_failed_parts(first, err@),
{
    let (e_zh, e_en) = bi_part(err);
    let (mut zh, mut en) = if first {
        (chars::chars_of("第一条流下载失败: "), chars::chars_of("Failed to download the video stream: "))
    } else {
        (chars::chars_of("第二条流下载失败: "), chars::chars_of("Failed to download the audio stream: "))
    };
    chars::append_str(&mut zh, e_zh.as_str());
    chars::append_str(&mut en, e_en.as_str());
    let zs = chars::string_of(&zh);
    let es = chars::string_of(&en);
    bi(zs.as_str(), es.as_str())
}

/// The error when yt-dlp left no media: its output of `size` bytes was not
/// media, or (`None`) it left no output at all.
pub fn output_error(size: Option<u64>) -> (r: String)
    ensures
        match size {
            Some(n) => r@ == json_pair_text(
                rejected_parts(Rejected::YtDlp, n).0,
                rejected_parts(Rejected::YtDlp, n).1,
            ),
            None => r@ == json_pair_text(
                "未找到下载产物: 链接可能已过期或被防盗链拦截。请重新「捕获」后再下载。"@,
                "No output file found: the link may have expired or been blocked by hotlink protection. Re-capture before downloading."@,
            ),
        },
{
    match size {
        Some(n) => rejected_error(Rejected::YtDlp, n),
        None => bi(
            "未找到下载产物: 链接可能已过期或被防盗链拦截。请重新「捕获」后再下载。",
            "No output file found: the link may have expired or been blocked by hotlink protection. Re-capture before downloading.",
        ),
    }
}

/// The ids of the tasks of link `url` that are still queued, downloading
/// or merging.
pub open spec fn active_ids(tasks: Map<Seq<char>, DownloadTask>, url: Seq<char>) -> Set<Seq<char>> {
    Set::new(|k: Seq<char>| tasks.contains_key(k) && tasks[k].url@ == url && is_active(tasks[k].status))
}

/// Once a link's task is queued where the link had none active, that task is
/// the link's only active one: a second request for the link joins it.
pub proof fn law_second_request_joins(tasks: Map<Seq<char>, DownloadTask>, t: DownloadTask)
    requires
        active_ids(tasks, t.url@) =~= Set::empty(),
        t.status == TaskStatus::Queued,
    ensures
        active_ids(tasks.insert(t.id@, t), t.url@) == set![t.id@],
{
    let after = active_ids(tasks.insert(t.id@, t), t.url@);
    assert forall|k: Seq<char>| after.contains(k) <==> k == t.id@ by {
        if k != t.id@ && after.contains(k) {
            assert(active_ids(tasks, t.url@).contains(k));
        }
    }
    assert(after =~= set![t.id@]);
}

/// `s1` is `s0` with a new task queued at `now` under id `id`: the task of
/// `task_id(now)` for `url`, titled by `task_title`, in folder `dir`, with
/// nothing downloaded, and its cancel mark cleared.
pub open spec fn queued_as(
    s0: StateView,
    s1: StateView,
    id: String,
    url: Seq<char>,
    dir: Seq<char>,
    format: Seq<char>,
    pair: Seq<char>,
    now: u128,
) -> bool {
    &&& id@ == "task_"@ + decimal(now as nat)
    &&& s1.tasks.contains_key(id@)
    &&& {
        let t = s1.tasks[id@];
        &&& t.id == id
        &&& t.url@ == url
        &&& t.title@ == (if trim(s0.capture_title).len() == 0 {
            short_title_spec(url)
        } else {
            s0.capture_title
        })
        &&& t.out_path@ == dir
        &&& t.status == TaskStatus::Queued
        &&& t.progress_bits == 0 && t.speed_bits == 0 && t.downloaded == 0 && t.total == 0
        &&& t.error@.len() == 0 && t.file_path@.len() == 0
        &&& opt_view(t.format) == Some(format)
        &&& t.pair_url@ == pair
        &&& s1 == (StateView {
            tasks: s0.tasks.insert(id@, t),
            cancel: s0.cancel.insert(id@, false),
            ..s0
        })
    }
}

/// A finished task of link `url` whose file is among the files on disk.
pub open spec fn reusable(t: DownloadTask, url: Seq<char>, on_disk: Seq<Seq<char>>) -> bool {
    t.url@ == url && t.status == TaskStatus::Done && t.file_path@.len() > 0 && on_disk.contains(
        t.file_path@,
    )
}

pub open spec fn has_active(tasks: Map<Seq<char>, DownloadTask>, url: Seq<char>) -> bool {
    exists|k: Seq<char>|
        #[trigger] tasks.contains_key(k) && tasks[k].url@ == url && is_active(tasks[k].status)
}

pub open spec fn has_reusable(
    tasks: Map<Seq<char>, DownloadTask>,
    url: Seq<char>,
    on_disk: Seq<Seq<char>>,
) -> bool {
    exists|k: Seq<char>| #[trigger] tasks.contains_key(k) && reusable(tasks[k], url, on_disk)
}

/// The folder of a new task: the one chosen, trimmed, else the default.
pub open spec fn folder_spec(out_dir: Seq<char>, default_dir: Seq<char>) -> Seq<char> {
    if trim(out_dir).len() == 0 {
        default_dir
    } else {
        trim(out_dir)
    }
}

/// How a download request was answered.
#[derive(Clone, Copy, Debug, PartialEq, Eq, Structural)]
pub enum Answer {
    /// A task of the link is still running; the request joins it.
    Joined,
    /// A finished task of the link has its file on disk; it answers.
    Reused,
    /// A new task was queued.
    Queued,
}

impl AppState {
    /// A finished task of `url` whose file is among `on_disk`.
    fn reusable_task(&self, url: &str, on_disk: &[String]) -> (r: Option<String>)
        requires
            self.wf(),
        ensures
            match r {
                Some(id) => self@.tasks.contains_key(id@) && reusable(
                    self@.tasks[id@],
                    url@,
                    string_views(on_disk@),
                ),
                None => !has_reusable(self@.tasks, url@, string_views(on_disk@)),
            },
    {
        let ghost dv = string_views(on_disk@);
        let fin = self.finished_tasks_for(url);
        let mut i: usize = 0;
        while i < fin.len()
            invariant
                i <= fin@.len(),
                dv == string_views(on_disk@),
                forall|a: int| 0 <= a < i ==> !dv.contains((#[trigger] fin@[a]).1@),
                forall|a: int|
                    0 <= a < fin@.len() ==> {
                        let t = self@.tasks[(#[trigger] fin@[a]).0@];
                        &&& self@.tasks.contains_key(fin@[a].0@)
                        &&& t.url@ == url@
                        &&& t.status == TaskStatus::Done
                        &&& t.file_path@.len() > 0
                        &&& fin@[a].1 == t.file_path
                    },
            decreases fin.len() - i,
        {
            let mut j: usize = 0;
            while j < on_disk.len()
                invariant
                    i < fin@.len(),
                    self@.tasks.contains_key(fin@[i as int].0@),
                    self@.tasks[fin@[i as int].0@].url@ == url@,
                    self@.tasks[fin@[i as int].0@].status == TaskStatus::Done,
                    self@.tasks[fin@[i as int].0@].file_path@.len() > 0,
                    fin@[i as int].1 == self@.tasks[fin@[i as int].0@].file_path,
                    j <= on_disk@.len(),
                    dv == string_views(on_disk@),
                    forall|b: int| 0 <= b < j ==> on_disk@[b]@ != fin@[i as int].1@,
                decreases on_disk.len() - j,
            {
                if on_disk[j] == fin[i].1 {
                    proof {
                        assert(dv[j as int] == fin@[i as int].1@);
                    }
                    let id = fin[i].0.clone();
                    assert(id@ == fin@[i as int].0@);
                    return Some(id);
                }
                j = j + 1;
            }
            proof {
                assert forall|b: int| 0 <= b < dv.len() implies dv[b] != fin@[i as int].1@ by {
                    assert(on_disk@[b]@ != fin@[i as int].1@);
                }
            }
            i = i + 1;
        }
        proof {
            assert forall|k: Seq<char>| #[trigger] self@.tasks.contains_key(k) implies !reusable(
                self@.tasks[k],
                url@,
                dv,
            ) by {
                let t = self@.tasks[k];
                if reusable(t, url@, dv) {
                    let a = choose|a: int| 0 <= a < fin@.len() && (#[trigger] fin@[a]).0@ == k;
                    assert(fin@[a].1 == t.file_path);
                }
            }
        }
        None
    }

    /// A download request for `url`: it joins a task of the link that is
    /// still running; else a finished task of the link whose file is on disk
    /// (`on_disk`: the files that exist) answers it; else a new task is
    /// queued at `now` in the chosen folder, else `default_dir`. When the
    /// link has one task and that task is running or finished on disk, the
    /// answer is that task and nothing changes.
    pub fn request_download(
        &mut self,
        url: &str,
        format: &str,
        out_dir: &str,
        default_dir: &str,
        on_disk: &[String],
        now: u128,
    ) -> (r: (String, Answer))
        requires
            old(self).wf(),
        ensures
            final(self).wf(),
            has_active(old(self)@.tasks, url@) ==> r.1 == Answer::Joined
                && old(self)@.tasks.contains_key(r.0@) && old(self)@.tasks[r.0@].url@ == url@
                && is_active(old(self)@.tasks[r.0@].status) && final(self)@ == old(self)@,
            !has_active(old(self)@.tasks, url@) && has_reusable(
                old(self)@.tasks,
                url@,
                string_views(on_disk@),
            ) ==> r.1 == Answer::Reused && old(self)@.tasks.contains_key(r.0@) && reusable(
                old(self)@.tasks[r.0@],
                url@,
                string_views(on_disk@),
            ) && final(self)@ == old(self)@,
            !has_active(old(self)@.tasks, url@) && !has_reusable(
                old(self)@.tasks,
                url@,
                string_views(on_disk@),
            ) ==> r.1 == Answer::Queued && queued_as(
                old(self)@,
                final(self)@,
                r.0,
                url@,
                folder_spec(out_dir@, default_dir@),
                format@,
                Seq::empty(),
                now,
            ),
            forall|id1: Seq<char>|
                #![trigger old(self)@.tasks[id1]]
                old(self)@.tasks.contains_key(id1) && old(self)@.tasks[id1].url@ == url@ && (
                is_active(old(self)@.tasks[id1].status) || reusable(
                    old(self)@.tasks[id1],
                    url@,
                    string_views(on_disk@),
                )) && (forall|j: Seq<char>|
                    #[trigger] old(self)@.tasks.contains_key(j) && old(self)@.tasks[j].url@ == url@
                        ==> j == id1) ==> r.0@ == id1 && final(self)@ == old(self)@,
    {
        match self.active_task_for(url) {
            Some(id) => return (id, Answer::Joined),
            None => {},
        }
        match self.reusable_task(url, on_disk) {
            Some(id) => return (id, Answer::Reused),
            None => {},
        }
        let dir = match chosen_out_dir(out_dir) {
            Some(d) => d,
            None => chars::owned(default_dir),
        };
        assert(dir@ == folder_spec(out_dir@, default_dir@));
        let id = self.queue_new(url, dir.as_str(), format, "", now);
        proof {
            reveal_strlit("");
            assert(""@ =~= Seq::<char>::empty());
            assert forall|id1: Seq<char>|
                #![trigger old(self)@.tasks[id1]]
                old(self)@.tasks.contains_key(id1) && old(self)@.tasks[id1].url@ == url@ && (
                is_active(old(self)@.tasks[id1].status) || reusable(
                    old(self)@.tasks[id1],
                    url@,
                    string_views(on_disk@),
                )) implies false by {
                if is_active(old(self)@.tasks[id1].status) {
                    assert(old(self)@.tasks.contains_key(id1) && old(self)@.tasks[id1].url@ == url@);
                }
            }
        }
        (id, Answer::Queued)
    }

    /// A request to download two streams and merge them: a finished task of
    /// the first link whose file is on disk answers it; else a new merge task
    /// is queued at `now` for the first link, with the second as its pair.
    pub fn request_pair(
        &mut self,
        a_url: &str,
        b_url: &str,
        out_dir: &str,
        default_dir: &str,
        on_disk: &[String],
        now: u128,
    ) -> (r: (String, Answer))
        requires
            old(self).wf(),
        ensures
            final(self).wf(),
            r.1 != Answer::Joined,
            has_reusable(old(self)@.tasks, a_url@, string_views(on_disk@)) ==> r.1
                == Answer::Reused && old(self)@.tasks.contains_key(r.0@) && reusable(
                old(self)@.tasks[r.0@],
                a_url@,
                string_views(on_disk@),
            ) && final(self)@ == old(self)@,
            !has_reusable(old(self)@.tasks, a_url@, string_views(on_disk@)) ==> r.1
                == Answer::Queued && queued_as(
                old(self)@,
                final(self)@,
                r.0,
                a_url@,
                folder_spec(out_dir@, default_dir@),
                "merge"@,
                b_url@,
                now,
            ),
    {
        match self.reusable_task(a_url, on_disk) {
            Some(id) => return (id, Answer::Reused),
            None => {},
        }
        let dir = match chosen_out_dir(out_dir) {
            Some(d) => d,
            None => chars::owned(default_dir),
        };
        let id = self.queue_new(a_url, dir.as_str(), "merge", b_url, now);
        (id, Answer::Queued)
    }

    /// Queues a new task at `now` (milliseconds): the task of
    /// `task_id(now)` for `url`, titled by `task_title`, with nothing
    /// downloaded and its cancel mark cleared. Returns its id.
    pub fn queue_new(&mut self, url: &str, dir: &str, format: &str, pair: &str, now: u128) -> (r: String)
        requires
            old(self).wf(),
        ensures
            final(self).wf(),
            queued_as(old(self)@, final(self)@, r, url@, dir@, format@, pair@, now),
    {
        let id = task_id(now);
        let title = task_title(self.capture_title(), url);
        let t = new_task(id.clone(), chars::owned(url), title, chars::owned(dir), Some(chars::owned(format)), chars::owned(pair));
        self.upsert_task(t);
        self.mark_cancel(id.as_str(), false);
        id
    }
}

/// What follows the download of both streams of a merge.
pub enum PairOutcome {
    /// The task was cancelled; both files go.
    Cancelled,
    /// The task fails with this error; both files go.
    Failed(String),
    /// Both files are media: they are merged next.
    Merge,
}

/// The decision after both streams of a merge were fetched: a cancellation
/// wins; then the first stream's error, then the second's; then a stream
/// that is not media (the first checked first, by its size and first
/// bytes); else the streams are merged.
pub fn pair_outcome(
    cancelled: bool,
    a: &Result<i64, String>,
    b: &Result<i64, String>,
    a_len: u64,
    a_head: &[u8],
    b_len: u64,
    b_head: &[u8],
) -> (r: PairOutcome)
    ensures
        cancelled ==> r is Cancelled,
        !cancelled && a is Err ==> (r matches PairOutcome::Failed(m) && m@ == json_pair_text(
            stream_failed_parts(true, a->Err_0@).0,
            stream_failed_parts(true, a->Err_0@).1,
        )),
        !cancelled && a is Ok && b is Err ==> (r matches PairOutcome::Failed(m) && m@
            == json_pair_text(
            stream_failed_parts(false, b->Err_0@).0,
            stream_failed_parts(false, b->Err_0@).1,
        )),
        !cancelled && a is Ok && b is Ok && !looks_like_media_spec(a_len, a_head@) ==> (r matches PairOutcome::Failed(m)
            && m@ == json_pair_text(
            rejected_parts(Rejected::Stream, a_len).0,
            rejected_parts(Rejected::Stream, a_len).1,
        )),
        !cancelled && a is Ok && b is Ok && looks_like_media_spec(a_len, a_head@)
            && !looks_like_media_spec(b_len, b_head@) ==> (r matches PairOutcome::Failed(m) && m@
            == json_pair_text(
            rejected_parts(Rejected::Stream, b_len).0,
            rejected_parts(Rejected::Stream, b_len).1,
        )),
        !cancelled && a is Ok && b is Ok && looks_like_media_spec(a_len, a_head@)
            && looks_like_media_spec(b_len, b_head@) ==> r is Merge,
{
    if cancelled {
        return PairOutcome::Cancelled;
    }
    match a {
        Err(e) => return PairOutcome::Failed(stream_failed(true, e.as_str())),
        Ok(_) => {},
    }
    match b {
        Err(e) => return PairOutcome::Failed(stream_failed(false, e.as_str())),
        Ok(_) => {},
    }
    if !looks_like_media(a_len, a_head) {
        return PairOutcome::Failed(rejected_error(Rejected::Stream, a_len));
    }
    if !looks_like_media(b_len, b_head) {
        return PairOutcome::Failed(rejected_error(Rejected::Stream, b_len));
    }
    PairOutcome::Merge
}

proof fn lemma_decimal_value(n: nat)
    ensures
        digits_value(decimal(n)) == n,
        decimal(n).len() > 0,
    decreases n,
{
    let d = (n % 10) as nat;
    assert(digit_char(d) as u32 == d + 48);
    if n < 10 {
        let s = decimal(n);
        assert(d == n);
        assert(s.drop_last() =~= Seq::<char>::empty());
        assert(digits_value(Seq::<char>::empty()) == 0);
        assert(s.last() == digit_char(d));
        assert(digits_value(s) == digits_value(s.drop_last()) * 10 + ((s.last() as u32) - 48) as nat);
    } else {
        lemma_decimal_value(n / 10);
        let s = decimal(n);
        assert(s.drop_last() =~= decimal(n / 10));
        assert(s.last() == digit_char(d));
        assert(digits_value(s) == digits_value(s.drop_last()) * 10 + ((s.last() as u32) - 48) as nat);
        assert((n / 10) * 10 + n % 10 == n) by (nonlinear_arith);
    }
}

/// Different numbers give different candidate names.
proof fn lemma_candidate_names_differ(base: Seq<char>, ext: Seq<char>, n: nat, m: nat)
    requires
        n != m,
    ensures
        candidate_name_spec(base, ext, n) != candidate_name_spec(base, ext, m),
{
    reveal_strlit(".");
    reveal_strlit(" (");
    reveal_strlit(").");
    lemma_decimal_value(n);
    lemma_decimal_value(m);
    let cn = candidate_name_spec(base, ext, n);
    let cm = candidate_name_spec(base, ext, m);
    if cn == cm {
        if n != 0 && m != 0 {
            let dn = decimal(n);
            let dm = decimal(m);
            assert(cn.len() == base.len() + 4 + dn.len() + ext.len());
            assert(cm.len() == base.len() + 4 + dm.len() + ext.len());
            let a: int = base.len() as int + 2;
            assert(cn.subrange(a, a + dn.len()) =~= dn);
            assert(cm.subrange(a, a + dm.len()) =~= dm);
        } else if n == 0 {
            assert(cn.len() == base.len() + 1 + ext.len());
            assert(cm.len() == base.len() + 4 + decimal(m).len() + ext.len());
        } else {
            assert(cm.len() == base.len() + 1 + ext.len());
            assert(cn.len() == base.len() + 4 + decimal(n).len() + ext.len());
        }
    }
}

/// The first candidate name (`base.ext`, `base (1).ext`, ...) that is free:
/// not among the names `taken`, or the file's own name `own`. Returns its
/// number and the name.
pub fn first_free_name(base: &str, ext: &str, taken: &[String], own: &str) -> (r: (u64, String))
    ensures
        r.1@ == candidate_name_spec(base@, ext@, r.0 as nat),
        r.1@ == own@ || !string_views(taken@).contains(r.1@),
        forall|m: nat|
            m < r.0 ==> string_views(taken@).contains(#[trigger] candidate_name_spec(base@, ext@, m))
                && candidate_name_spec(base@, ext@, m) != own@,
{
    let ghost tv = string_views(taken@);
    let mut n: usize = 0;
    while n <= taken.len()
        invariant
            tv == string_views(taken@),
            n <= taken@.len() + 1,
            forall|m: nat|
                m < n ==> tv.contains(#[trigger] candidate_name_spec(base@, ext@, m))
                    && candidate_name_spec(base@, ext@, m) != own@,
        decreases taken@.len() + 1 - n,
    {
        let name = candidate_name(base, ext, n as u64);
        let mut free = chars::eq_str(&chars::chars_of(name.as_str()), own);
        if !free {
            free = true;
            let mut i: usize = 0;
            while i < taken.len()
                invariant
                    i <= taken@.len(),
                    tv == string_views(taken@),
                    free == forall|j: int| 0 <= j < i ==> taken@[j]@ != name@,
                decreases taken.len() - i,
            {
                if chars::eq_str(&chars::chars_of(taken[i].as_str()), name.as_str()) {
                    free = false;
                }
                i = i + 1;
            }
            proof {
                if free {
                    assert forall|j: int| 0 <= j < tv.len() implies tv[j] != name@ by {
                        assert(taken@[j]@ != name@);
                    }
                } else {
                    let j = choose|j: int| 0 <= j < taken@.len() && taken@[j]@ == name@;
                    assert(tv[j] == name@);
                }
            }
        }
        if free {
            return (n as u64, name);
        }
        if n == taken.len() {
            proof {
                lemma_some_candidate_free(base@, ext@, tv);
            }
            return (n as u64, name);
        }
        n = n + 1;
    }
    proof {
        lemma_some_candidate_free(base@, ext@, tv);
    }
    (n as u64, candidate_name(base, ext, n as u64))
}

/// Among the first `taken.len() + 1` candidate names, one is not taken.
proof fn lemma_some_candidate_free(base: Seq<char>, ext: Seq<char>, tv: Seq<Seq<char>>)
    ensures
        exists|m: nat| m < tv.len() + 1 && !tv.contains(#[trigger] candidate_name_spec(base, ext, m)),
{
    if forall|m: nat| m < tv.len() + 1 ==> tv.contains(#[trigger] candidate_name_spec(base, ext, m)) {
        // The candidates are all different, so they cannot all fit among the taken names.
        let k = tv.len() + 1;
        let cands = Seq::new(k, |i: int| candidate_name_spec(base, ext, i as nat));
        assert(cands.no_duplicates()) by {
            assert forall|i: int, j: int|
                0 <= i < cands.len() && 0 <= j < cands.len() && i != j implies cands[i] != cands[j] by {
                lemma_candidate_names_differ(base, ext, i as nat, j as nat);
            }
        }
        cands.unique_seq_to_set();
        assert(cands.to_set().subset_of(tv.to_set())) by {
            assert forall|x: Seq<char>| cands.to_set().contains(x) implies tv.to_set().contains(x) by {
                let i = choose|i: int| 0 <= i < cands.len() && cands[i] == x;
                assert(tv.contains(candidate_name_spec(base, ext, i as nat)));
            }
        }
        tv.lemma_cardinality_of_set();
        vstd::seq_lib::seq_to_set_is_finite(tv);
        vstd::set_lib::lemma_len_subset(cands.to_set(), tv.to_set());
    }
}

/// The error text with which a fetch reports that its task was cancelled.
pub const CANCELLED: &'static str = "__cancelled__";

/// What follows a download of the built-in downloader.
pub enum DirectOutcome {
    /// The task was cancelled.
    Cancelled,
    /// The task fails with this error.
    Failed(String),
    /// The file is media: `n` bytes were downloaded.
    Done(i64),
}

/// The decision after the built-in downloader fetched a file: a cancelled
/// fetch cancels; another error fails with it; a file that is not media
/// (by its size and first bytes) fails as rejected; else the task is done.
pub fn direct_outcome(fetched: &Result<i64, String>, len: u64, head: &[u8]) -> (r: DirectOutcome)
    ensures
        match fetched {
            Err(e) => if e@ == CANCELLED@ {
                r is Cancelled
            } else {
                r matches DirectOutcome::Failed(m) && m == e
            },
            Ok(n) => if looks_like_media_spec(len, head@) {
                r == DirectOutcome::Done(*n)
            } else {
                r matches DirectOutcome::Failed(m) && m@ == json_pair_text(
                    rejected_parts(Rejected::Direct, len).0,
                    rejected_parts(Rejected::Direct, len).1,
                )
            },
        },
{
    match fetched {
        Err(e) => {
            if chars::eq_str(&chars::chars_of(e.as_str()), CANCELLED) {
                DirectOutcome::Cancelled
            } else {
                DirectOutcome::Failed(e.clone())
            }
        },
        Ok(n) => {
            if looks_like_media(len, head) {
                DirectOutcome::Done(*n)
            } else {
                DirectOutcome::Failed(rejected_error(Rejected::Direct, len))
            }
        },
    }
}

/// A direct media link goes to the built-in downloader: an http(s) link
/// whose path (before `?` or `#`, lower-cased, trimmed) ends in `.mp4`,
/// `.m4v`, `.flv`, `.f4v`, `.mov`, `.mkv`, `.webm`, `.ts`, `.m4s` or `.mp3`
/// is direct media.
pub proof fn law_media_extensions_are_direct(url: Seq<char>, ext: Seq<char>)
    requires
        starts_with(lower(trim(url)), "http://"@) || starts_with(lower(trim(url)), "https://"@),
        ext == ".mp4"@ || ext == ".m4v"@ || ext == ".flv"@ || ext == ".f4v"@ || ext == ".mov"@
            || ext == ".mkv"@ || ext == ".webm"@ || ext == ".ts"@ || ext == ".m4s"@ || ext
            == ".mp3"@,
        ends_with(before_any(lower(trim(url)), query_stops()), ext),
    ensures
        is_direct_media_spec(url),
{
    let es = direct_exts();
    let k: int = if ext == ".mp4"@ {
        0
    } else if ext == ".m4v"@ {
        1
    } else if ext == ".flv"@ {
        2
    } else if ext == ".f4v"@ {
        3
    } else if ext == ".mov"@ {
        4
    } else if ext == ".mkv"@ {
        5
    } else if ext == ".webm"@ {
        6
    } else if ext == ".ts"@ {
        7
    } else if ext == ".m4s"@ {
        8
    } else {
        9
    };
    assert(es[k] == ext);
    assert(ends_with(before_any(lower(trim(url)), query_stops()), es[k]));
}

/// The capture page's title names the file whenever it is not blank and
/// stays non-empty once made safe, whatever fallback name is offered.
pub proof fn law_page_title_names_the_file(
    cap_title: Seq<char>,
    fallback: Option<Seq<char>>,
    url: Seq<char>,
    raw_stem: Seq<char>,
)
    requires
        trim(cap_title).len() > 0,
        sanitize_spec(cap_title).len() > 0,
    ensures
        file_base_spec(cap_title, fallback, url, raw_stem) == sanitize_spec(cap_title),
{
}

/// A task that is queued, downloading or merging is running: a download
/// request for its link joins a running task (see `request_download`).
pub proof fn law_running_tasks_are_joined(
    tasks: Map<Seq<char>, DownloadTask>,
    k: Seq<char>,
    url: Seq<char>,
)
    requires
        tasks.contains_key(k),
        tasks[k].url@ == url,
        tasks[k].status == TaskStatus::Queued || tasks[k].status == TaskStatus::Downloading
            || tasks[k].status == TaskStatus::Merging,
    ensures
        has_active(tasks, url),
        is_active(tasks[k].status),
{
}

} // verus!
