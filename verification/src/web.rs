//! What the downloader sends and reads over HTTP: browser-like headers,
//! cookies taken from the capture browser, and the size of a response.
use vstd::prelude::*;

use crate::chars;
use crate::download::origin_of_str;
use crate::state::{opt_view, origin_spec};
use crate::text::{after_last, all_digits, digits_value, join, starts_with, strip_leading, trim};

verus! {

pub open spec fn pair_views(cs: Seq<(String, String)>) -> Seq<(Seq<char>, Seq<char>)> {
    cs.map_values(|c: (String, String)| (c.0@, c.1@))
}

/// The `name=value` pairs of a cookie header, in order: a cookie without a
/// name is skipped, and so is a cookie whose name an earlier pair already has.
pub open spec fn cookie_pairs(cs: Seq<(Seq<char>, Seq<char>)>) -> Seq<Seq<char>>
    decreases cs.len(),
{
    if cs.len() == 0 {
        Seq::empty()
    } else {
        let prev = cookie_pairs(cs.drop_last());
        let (n, v) = cs.last();
        if n.len() == 0 || exists|i: int| 0 <= i < prev.len() && starts_with(#[trigger] prev[i], n + "="@) {
            prev
        } else {
            prev.push(n + "="@ + v)
        }
    }
}

/// A `Cookie` header from the capture browser's cookies for a link; `None`
/// when there are none.
pub open spec fn cookie_header_spec(cs: Seq<(Seq<char>, Seq<char>)>) -> Option<Seq<char>> {
    if cookie_pairs(cs).len() == 0 {
        None
    } else {
        Some(join(cookie_pairs(cs), "; "@))
    }
}

fn any_starts_with(v: &Vec<Vec<char>>, p: &Vec<char>) -> (r: bool)
    ensures
        r == exists|i: int| 0 <= i < v@.len() && starts_with(#[trigger] crate::text::views(v@)[i], p@),
{
    let mut i: usize = 0;
    while i < v.len()
        invariant
            i <= v@.len(),
            forall|j: int| 0 <= j < i ==> !starts_with(#[trigger] crate::text::views(v@)[j], p@),
        decreases v.len() - i,
    {
        assert(crate::text::views(v@)[i as int] == v@[i as int]@);
        if chars::starts_with(&v[i], p) {
            return true;
        }
        i = i + 1;
    }
    false
}

fn join_with(parts: &Vec<Vec<char>>, sep: &str) -> (r: Vec<char>)
    ensures
        r@ == join(crate::text::views(parts@), sep@),
{
    let ghost all = crate::text::views(parts@);
    let mut out: Vec<char> = Vec::new();
    let mut j: usize = 0;
    assert(all.take(0) =~= Seq::<Seq<char>>::empty());
    while j < parts.len()
        invariant
            j <= parts@.len(),
            all == crate::text::views(parts@),
            out@ == join(all.take(j as int), sep@),
        decreases parts.len() - j,
    {
        assert(all.take(j + 1).drop_last() =~= all.take(j as int));
        assert(all.take(j + 1).last() == parts@[j as int]@);
        if j > 0 {
            chars::append_str(&mut out, sep);
        } else {
            assert(out@ =~= Seq::<char>::empty());
        }
        chars::append(&mut out, &parts[j]);
        j = j + 1;
    }
    assert(all.take(parts@.len() as int) =~= all);
    out
}

/// The `Cookie` header for a link from the cookies the capture browser holds
/// for it (as name/value pairs, in the order the windows gave them).
pub fn cookie_header(cs: &[(String, String)]) -> (r: Option<String>)
    ensures
        opt_view(r) == cookie_header_spec(pair_views(cs@)),
{
    let mut pairs: Vec<Vec<char>> = Vec::new();
    let mut i: usize = 0;
    let ghost all = pair_views(cs@);
    while i < cs.len()
        invariant
            i <= cs@.len(),
            all == pair_views(cs@),
            crate::text::views(pairs@) == cookie_pairs(all.take(i as int)),
        decreases cs.len() - i,
    {
        assert(all.take(i + 1).drop_last() =~= all.take(i as int));
        assert(all.take(i + 1).last() == (cs@[i as int].0@, cs@[i as int].1@));
        let n = chars::chars_of(cs[i].0.as_str());
        if n.len() > 0 {
            let mut key = chars::slice(&n, 0, n.len());
            assert(n@.subrange(0, n@.len() as int) =~= n@);
            chars::append_str(&mut key, "=");
            if !any_starts_with(&pairs, &key) {
                let mut p = key;
                chars::append_str(&mut p, cs[i].1.as_str());
                let ghost p0 = pairs@;
                pairs.push(p);
                assert(crate::text::views(pairs@) =~= crate::text::views(p0).push(
                    n@ + "="@ + cs@[i as int].1@,
                ));
            }
        }
        i = i + 1;
    }
    assert(all.take(cs@.len() as int) =~= all);
    if pairs.len() == 0 {
        None
    } else {
        Some(chars::string_of(&join_with(&pairs, "; ")))
    }
}

/// One line of a Netscape cookie file.
pub open spec fn cookie_line(domain: Seq<char>, n: Seq<char>, v: Seq<char>) -> Seq<char> {
    domain + "\tTRUE\t/\tTRUE\t2145916800\t"@ + n + "\t"@ + v + "\n"@
}

/// The names written so far and the lines written so far.
pub open spec fn cookie_file_body(domain: Seq<char>, cs: Seq<(Seq<char>, Seq<char>)>) -> (
    Seq<Seq<char>>,
    Seq<char>,
)
    decreases cs.len(),
{
    if cs.len() == 0 {
        (Seq::empty(), Seq::empty())
    } else {
        let (seen, body) = cookie_file_body(domain, cs.drop_last());
        let (n, v) = cs.last();
        if n.len() == 0 || seen.contains(n) {
            (seen, body)
        } else {
            (seen.push(n), body + cookie_line(domain, n, v))
        }
    }
}

/// A Netscape cookie file for yt-dlp from the capture browser's cookies for
/// a link's host: every named cookie once, for the host and its subdomains;
/// `None` when the host is empty or there are no cookies.
pub open spec fn cookies_txt_spec(host: Seq<char>, cs: Seq<(Seq<char>, Seq<char>)>) -> Option<Seq<char>> {
    let h = strip_leading(host, '.');
    let domain = seq!['.'] + h;
    let (seen, body) = cookie_file_body(domain, cs);
    if h.len() == 0 || seen.len() == 0 {
        None
    } else {
        Some("# Netscape HTTP Cookie File\n"@ + body)
    }
}

fn has_name(seen: &Vec<Vec<char>>, n: &Vec<char>) -> (r: bool)
    ensures
        r == crate::text::views(seen@).contains(n@),
{
    let mut i: usize = 0;
    while i < seen.len()
        invariant
            i <= seen@.len(),
            forall|j: int| 0 <= j < i ==> crate::text::views(seen@)[j] != n@,
        decreases seen.len() - i,
    {
        if chars::eq(&seen[i], n) {
            assert(crate::text::views(seen@)[i as int] == n@);
            return true;
        }
        i = i + 1;
    }
    false
}

pub fn cookies_txt(host: &str, cs: &[(String, String)]) -> (r: Option<String>)
    ensures
        opt_view(r) == cookies_txt_spec(host@, pair_views(cs@)),
{
    let h = chars::strip_leading(&chars::chars_of(host), '.');
    if h.len() == 0 {
        return None;
    }
    let mut domain: Vec<char> = Vec::new();
    domain.push('.');
    chars::append(&mut domain, &h);
    assert(domain@ =~= seq!['.'] + h@);
    let mut seen: Vec<Vec<char>> = Vec::new();
    let mut body: Vec<char> = Vec::new();
    let ghost all = pair_views(cs@);
    let mut i: usize = 0;
    while i < cs.len()
        invariant
            i <= cs@.len(),
            all == pair_views(cs@),
            domain@ == seq!['.'] + h@,
            (crate::text::views(seen@), body@) == cookie_file_body(domain@, all.take(i as int)),
        decreases cs.len() - i,
    {
        assert(all.take(i + 1).drop_last() =~= all.take(i as int));
        assert(all.take(i + 1).last() == (cs@[i as int].0@, cs@[i as int].1@));
        let n = chars::chars_of(cs[i].0.as_str());
        if n.len() > 0 && !has_name(&seen, &n) {
            let ghost s0 = seen@;
            let ghost b0 = body@;
            chars::append(&mut body, &domain);
            chars::append_str(&mut body, "\tTRUE\t/\tTRUE\t2145916800\t");
            chars::append(&mut body, &n);
            chars::append_str(&mut body, "\t");
            chars::append_str(&mut body, cs[i].1.as_str());
            chars::append_str(&mut body, "\n");
            assert(body@ =~= b0 + cookie_line(domain@, n@, cs@[i as int].1@));
            seen.push(n);
            assert(crate::text::views(seen@) =~= crate::text::views(s0).push(cs@[i as int].0@));
        }
        i = i + 1;
    }
    assert(all.take(cs@.len() as int) =~= all);
    if seen.len() == 0 {
        None
    } else {
        let mut out = chars::chars_of("# Netscape HTTP Cookie File\n");
        chars::append(&mut out, &body);
        Some(chars::string_of(&out))
    }
}

/// The headers of a browser-like request: any content; the referer and its
/// origin, when a referer is known; the cookie header, when there is one.
pub open spec fn browser_headers_spec(referer: Option<Seq<char>>, cookie: Option<Seq<char>>) -> Seq<
    (Seq<char>, Seq<char>),
> {
    seq![("Accept"@, "*/*"@)] + match referer {
        Some(r) => seq![("Referer"@, r)] + match origin_spec(r, Seq::empty()) {
            Some(o) => seq![("Origin"@, o)],
            None => Seq::empty(),
        },
        None => Seq::empty(),
    } + match cookie {
        Some(c) => seq![("Cookie"@, c)],
        None => Seq::empty(),
    }
}

fn push_header(v: &mut Vec<(String, String)>, name: &str, value: String)
    ensures
        pair_views(final(v)@) == pair_views(old(v)@).push((name@, value@)),
{
    let ghost v0 = v@;
    v.push((chars::owned(name), value));
    assert(pair_views(v@) =~= pair_views(v0).push((name@, value@)));
}

pub fn browser_headers(referer: Option<&str>, cookie: Option<&str>) -> (r: Vec<(String, String)>)
    ensures
        pair_views(r@) == browser_headers_spec(
            match referer {
                Some(x) => Some(x@),
                None => None,
            },
            match cookie {
                Some(x) => Some(x@),
                None => None,
            },
        ),
{
    let mut v: Vec<(String, String)> = Vec::new();
    push_header(&mut v, "Accept", chars::owned("*/*"));
    let ghost a0 = pair_views(v@);
    match referer {
        Some(r) => {
            push_header(&mut v, "Referer", chars::owned(r));
            match origin_of_str(r) {
                Some(o) => {
                    push_header(&mut v, "Origin", o);
                },
                None => {},
            }
        },
        None => {},
    }
    let ghost a1 = pair_views(v@);
    match cookie {
        Some(c) => {
            push_header(&mut v, "Cookie", chars::owned(c));
        },
        None => {},
    }
    assert(pair_views(v@) =~= browser_headers_spec(
        match referer {
            Some(x) => Some(x@),
            None => None,
        },
        match cookie {
            Some(x) => Some(x@),
            None => None,
        },
    ));
    v
}

/// `i64::from_str`: an optional sign and at least one digit, of a value that fits.
pub open spec fn parse_i64_spec(s: Seq<char>) -> Option<int> {
    let neg = s.len() > 0 && s[0] == '-';
    let d = if s.len() > 0 && (s[0] == '+' || s[0] == '-') {
        s.drop_first()
    } else {
        s
    };
    if d.len() > 0 && all_digits(d) {
        let v: int = if neg {
            -(digits_value(d) as int)
        } else {
            digits_value(d) as int
        };
        if i64::MIN <= v <= i64::MAX {
            Some(v)
        } else {
            None
        }
    } else {
        None
    }
}

proof fn lemma_digits_step(s: Seq<char>, i: int)
    requires
        0 <= i < s.len(),
    ensures
        digits_value(s.take(i + 1)) == digits_value(s.take(i)) * 10 + ((s[i] as u32) - 48) as nat,
{
    assert(s.take(i + 1).drop_last() =~= s.take(i));
}

proof fn lemma_digits_monotone(s: Seq<char>, i: int)
    requires
        0 <= i <= s.len(),
        all_digits(s),
    ensures
        digits_value(s.take(i)) <= digits_value(s),
    decreases s.len() - i,
{
    if i < s.len() {
        lemma_digits_monotone(s, i + 1);
        lemma_digits_step(s, i);
        assert(s.take(s.len() as int) =~= s);
    } else {
        assert(s.take(i) =~= s);
    }
}

/// Reads a signed number as `i64::from_str` does.
pub fn parse_i64(s: &Vec<char>) -> (r: Option<i64>)
    ensures
        match r {
            Some(n) => parse_i64_spec(s@) == Some(n as int),
            None => parse_i64_spec(s@) is None,
        },
{
    let neg = s.len() > 0 && s[0] == '-';
    let start: usize = if s.len() > 0 && (s[0] == '+' || s[0] == '-') {
        1
    } else {
        0
    };
    let ghost d = if s@.len() > 0 && (s@[0] == '+' || s@[0] == '-') {
        s@.drop_first()
    } else {
        s@
    };
    assert(d =~= s@.skip(start as int));
    if start >= s.len() {
        assert(d.len() == 0);
        return None;
    }
    // the magnitude, kept as u64: up to 2^63 for a negative number
    let mut n: u64 = 0;
    let limit: u64 = if neg {
        9223372036854775808u64
    } else {
        9223372036854775807u64
    };
    let mut i = start;
    while i < s.len()
        invariant
            start <= i <= s@.len(),
            d == s@.skip(start as int),
            d == (if s@.len() > 0 && (s@[0] == '+' || s@[0] == '-') {
                s@.drop_first()
            } else {
                s@
            }),
            neg == (s@.len() > 0 && s@[0] == '-'),
            limit == (if neg {
                9223372036854775808u64
            } else {
                9223372036854775807u64
            }),
            n as nat == digits_value(d.take(i - start)),
            n <= limit,
            forall|j: int| 0 <= j < i - start ==> crate::text::is_ascii_digit(#[trigger] d[j]),
        decreases s.len() - i,
    {
        let c = s[i];
        if !chars::is_ascii_digit(c) {
            assert(d[i - start] == c);
            assert(!all_digits(d));
            return None;
        }
        proof {
            lemma_digits_step(d, i - start);
        }
        let dv = ((c as u32) - 48) as u64;
        if n > (limit - dv) / 10 {
            proof {
                assert(digits_value(d.take(i + 1 - start)) > limit);
                if all_digits(d) {
                    lemma_digits_monotone(d, i + 1 - start);
                }
            }
            return None;
        }
        n = n * 10 + dv;
        i = i + 1;
    }
    assert(d.take(s@.len() - start) =~= d);
    if neg {
        if n == 9223372036854775808u64 {
            Some(i64::MIN)
        } else {
            Some(-(n as i64))
        }
    } else {
        Some(n as i64)
    }
}

/// The full size of a response: the total of a `Content-Range` header
/// (after its `/`), when that is a positive number; else a positive
/// `Content-Length`.
pub open spec fn size_from_headers_spec(content_range: Option<Seq<char>>, content_length: Option<u64>) -> Option<int> {
    let from_range = match content_range {
        Some(v) => match parse_i64_spec(trim(after_last(v, '/'))) {
            Some(n) => if n > 0 {
                Some(n)
            } else {
                None
            },
            None => None,
        },
        None => None,
    };
    match from_range {
        Some(n) => Some(n),
        None => match content_length {
            Some(l) => if (l as i64) > 0 {
                Some((l as i64) as int)
            } else {
                None
            },
            None => None,
        },
    }
}

pub fn size_from_headers(content_range: Option<&str>, content_length: Option<u64>) -> (r: Option<
    i64,
>)
    ensures
        match r {
            Some(n) => size_from_headers_spec(
                match content_range {
                    Some(x) => Some(x@),
                    None => None,
                },
                content_length,
            ) == Some(n as int),
            None => size_from_headers_spec(
                match content_range {
                    Some(x) => Some(x@),
                    None => None,
                },
                content_length,
            ) is None,
        },
{
    match content_range {
        Some(v) => {
            let t = chars::trim(&chars::after_last(&chars::chars_of(v), '/'));
            match parse_i64(&t) {
                Some(n) => if n > 0 {
                    return Some(n);
                },
                None => {},
            }
        },
        None => {},
    }
    match content_length {
        Some(l) => {
            let n = l as i64;
            if n > 0 {
                Some(n)
            } else {
                None
            }
        },
        None => None,
    }
}

/// The size that a `HEAD` request settles: its size (see
/// `size_from_headers`) when it succeeded; `None` means a ranged `GET` of
/// the first byte is asked next, and its size is taken.
pub fn head_size(success: bool, content_range: Option<&str>, content_length: Option<u64>) -> (r:
    Option<i64>)
    ensures
        match r {
            Some(n) => success && size_from_headers_spec(
                match content_range {
                    Some(x) => Some(x@),
                    None => None,
                },
                content_length,
            ) == Some(n as int),
            None => !success || size_from_headers_spec(
                match content_range {
                    Some(x) => Some(x@),
                    None => None,
                },
                content_length,
            ) is None,
        },
{
    if success {
        size_from_headers(content_range, content_length)
    } else {
        None
    }
}

} // verus!
