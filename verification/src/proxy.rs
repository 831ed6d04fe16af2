//! What the capture proxy reads from a request head, and the media item it
//! records for a plain-HTTP media request.
use vstd::prelude::*;

use crate::chars;
use crate::schema::{MediaItem, MediaKind};
use crate::sniffer::{classify, classify_spec, host_of, host_of_spec, label_view};
use crate::state::opt_view;
use crate::text::{
    contains, decimal, first_word, first_ws, lines, lower, starts_with, trim, trim_start, views,
};

verus! {

/// `str::to_uppercase` (std): the Unicode upper-case mapping of each character.
pub uninterp spec fn unicode_upper(s: Seq<char>) -> Seq<char>;

/// `str::to_uppercase` (std). Its result is named, not spelled out: it is
/// the full Unicode case mapping, which depends on the input alone.
#[verifier::external_body]
fn to_upper(s: &str) -> (r: String)
    ensures
        r@ == unicode_upper(s@),
{
    s.to_uppercase()
}

/// The second whitespace-separated word of a line.
pub open spec fn second_word(line: Seq<char>) -> Option<Seq<char>> {
    let t = trim_start(line);
    if t.len() == 0 {
        None
    } else {
        match first_ws(t, 0) {
            Some(i) => first_word(t.skip(i)),
            None => None,
        }
    }
}

/// The absolute `http://` target of a proxied request's first line
/// (`GET http://... HTTP/1.1`).
pub open spec fn request_url_spec(text: Seq<char>) -> Option<Seq<char>> {
    if lines(text).len() == 0 {
        None
    } else {
        match second_word(lines(text)[0]) {
            Some(target) => if starts_with(target, "http://"@) {
                Some(target)
            } else {
                None
            },
            None => None,
        }
    }
}

pub fn http_request_url(text: &str) -> (r: Option<String>)
    ensures
        opt_view(r) == request_url_spec(text@),
{
    let v = chars::chars_of(text);
    let ls = chars::lines(&v);
    if ls.len() == 0 {
        return None;
    }
    assert(views(ls@)[0] == ls@[0]@);
    let t = chars::trim_start(&ls[0]);
    if t.len() == 0 {
        return None;
    }
    proof {
        chars::lemma_first_ws(t@, 0);
    }
    match chars::first_ws(&t, 0) {
        Some(i) => {
            let rest = chars::slice(&t, i, t.len());
            match chars::first_word(&rest) {
                Some(target) => if chars::starts_with_str(&target, "http://") {
                    Some(chars::string_of(&target))
                } else {
                    None
                },
                None => None,
            }
        },
        None => None,
    }
}

/// The `Host:` header value (the first such line, matched in lower case),
/// with `:80` added when it names no port.
pub open spec fn host_header(ls: Seq<Seq<char>>) -> Option<Seq<char>>
    decreases ls.len(),
{
    if ls.len() == 0 {
        None
    } else if starts_with(lower(ls[0]), "host:"@) {
        let h = trim(lower(ls[0]).skip(5));
        Some(
            if contains(h, ":"@) {
                h
            } else {
                h + ":80"@
            },
        )
    } else {
        host_header(ls.drop_first())
    }
}

pub fn http_host(text: &str) -> (r: Option<String>)
    ensures
        opt_view(r) == host_header(lines(text@)),
{
    let v = chars::chars_of(text);
    let ls = chars::lines(&v);
    let ghost all = views(ls@);
    let mut i: usize = 0;
    assert(all.skip(0) =~= all);
    while i < ls.len()
        invariant
            i <= ls@.len(),
            all == views(ls@),
            all == lines(text@),
            host_header(all) == host_header(all.skip(i as int)),
        decreases ls.len() - i,
    {
        let low = chars::lower(&ls[i]);
        assert(all.skip(i as int)[0] == ls@[i as int]@);
        if chars::starts_with_str(&low, "host:") {
            proof {
                reveal_strlit("host:");
            }
            let h = chars::trim(&chars::slice(&low, 5, low.len()));
            if chars::contains_str(&h, ":") {
                return Some(chars::string_of(&h));
            } else {
                let mut hp = h;
                chars::append_str(&mut hp, ":80");
                return Some(chars::string_of(&hp));
            }
        }
        assert(all.skip(i as int).drop_first() =~= all.skip(i + 1));
        i = i + 1;
    }
    None
}

/// The address the proxy forwards a plain request to: its `Host:` header,
/// else `unknown:80`.
pub fn upstream_host(text: &str) -> (r: String)
    ensures
        r@ == match host_header(lines(text@)) {
            Some(h) => h,
            None => "unknown:80"@,
        },
{
    match http_host(text) {
        Some(h) => h,
        None => chars::owned("unknown:80"),
    }
}

/// A `CONNECT` request (the method is compared in upper case).
pub fn is_connect(text: &str) -> (r: bool)
    ensures
        r == starts_with(unicode_upper(text@), "CONNECT"@),
{
    let up = to_upper(text);
    chars::starts_with_str(&chars::chars_of(up.as_str()), "CONNECT")
}

/// `s` without its leading copies of `p` (`trim_start_matches(p)`, `p` non-empty).
pub open spec fn strip_prefix_all(s: Seq<char>, p: Seq<char>) -> Seq<char>
    decreases s.len(),
{
    if p.len() > 0 && starts_with(s, p) {
        strip_prefix_all(s.skip(p.len() as int), p)
    } else {
        s
    }
}

/// The `host:port` that a `CONNECT` request asks for; empty when missing.
pub open spec fn connect_target_spec(text: Seq<char>) -> Seq<char> {
    let first = if lines(text).len() > 0 {
        lines(text)[0]
    } else {
        Seq::empty()
    };
    match first_word(strip_prefix_all(first, "CONNECT "@)) {
        Some(w) => w,
        None => Seq::empty(),
    }
}

pub fn connect_target(text: &str) -> (r: String)
    ensures
        r@ == connect_target_spec(text@),
{
    let v = chars::chars_of(text);
    let ls = chars::lines(&v);
    let first = if ls.len() > 0 {
        assert(views(ls@)[0] == ls@[0]@);
        chars::slice(&ls[0], 0, ls[0].len())
    } else {
        Vec::new()
    };
    assert(ls@.len() > 0 ==> ls@[0]@.subrange(0, ls@[0]@.len() as int) =~= ls@[0]@);
    let p = chars::chars_of("CONNECT ");
    proof {
        reveal_strlit("CONNECT ");
    }
    let mut rest = first;
    while chars::starts_with(&rest, &p)
        invariant
            p@ == "CONNECT "@,
            p@.len() == 8,
            strip_prefix_all(first@, "CONNECT "@) == strip_prefix_all(rest@, "CONNECT "@),
        decreases rest@.len(),
    {
        rest = chars::slice(&rest, 8, rest.len());
    }
    match chars::first_word(&rest) {
        Some(w) => chars::string_of(&w),
        None => String::new(),
    }
}

/// The item the proxy records for a media request it saw at `now`
/// (milliseconds): named after its host, of unknown size, new.
pub open spec fn proxy_item_ok(url: Seq<char>, now: u64, m: MediaItem) -> bool {
    match classify_spec(url, Seq::empty()) {
        Some((kind, quality)) => {
            &&& m.id@ == "m_"@ + decimal(now as nat)
            &&& m.url@ == url
            &&& m.title@ == host_of_spec(url)
            &&& m.source@ == host_of_spec(url)
            &&& m.kind == kind
            &&& m.quality@ == quality
            &&& m.size_bytes == -1
            &&& m.status@ == "new"@
        },
        None => false,
    }
}

pub fn proxy_media_item(url: &str, now: u64) -> (r: Option<MediaItem>)
    ensures
        r is None <==> classify_spec(url@, Seq::empty()) is None,
        r matches Some(m) ==> proxy_item_ok(url@, now, m),
{
    proof {
        reveal_strlit("");
        assert(""@ =~= Seq::<char>::empty());
    }
    match classify(url, "") {
        Some((kind, quality)) => {
            let mut id = chars::chars_of("m_");
            let d = chars::decimal(now as u128);
            chars::append(&mut id, &d);
            Some(
                MediaItem {
                    id: chars::string_of(&id),
                    url: chars::owned(url),
                    title: host_of(url),
                    source: host_of(url),
                    kind,
                    quality,
                    size_bytes: -1,
                    status: chars::owned("new"),
                },
            )
        },
        None => None,
    }
}

} // verus!
