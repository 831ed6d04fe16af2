//! Release checks and links: comparing version numbers, and which links the
//! app opens in the system browser.
use vstd::prelude::*;

use crate::bilingual::{bi, json_member, json_pair_text, json_string_member};
use crate::chars;
use crate::state::opt_view;
use crate::text::{all_digits, digits_value, first_in, lemma_first_in, starts_with, strip_leading, trim};

verus! {

/// The pieces of `s` between the separators `c` (`str::split(c)`); there is
/// always at least one.
pub open spec fn pieces(s: Seq<char>, c: char) -> Seq<Seq<char>>
    decreases s.len(),
{
    match first_in(s, seq![c], 0) {
        Some(i) => {
            proof {
                lemma_first_in(s, seq![c], 0);
            }
            seq![s.take(i)] + pieces(s.skip(i + 1), c)
        },
        None => seq![s],
    }
}

/// `u64::from_str`: an optional `+` and at least one digit, of a value that fits.
pub open spec fn parse_u64_spec(s: Seq<char>) -> Option<nat> {
    let d = if s.len() > 0 && s[0] == '+' {
        s.drop_first()
    } else {
        s
    };
    if d.len() > 0 && all_digits(d) && digits_value(d) <= u64::MAX {
        Some(digits_value(d))
    } else {
        None
    }
}

/// A version component: its number, or 0 when it is not one.
pub open spec fn component_value(p: Seq<char>) -> nat {
    match parse_u64_spec(trim(p)) {
        Some(n) => n,
        None => 0,
    }
}

/// The components of a version such as `v1.2.3`: surrounding whitespace and
/// leading `v`s go; each dot-separated piece is read as a number (0 when it
/// is not one).
pub open spec fn ver_tuple_spec(v: Seq<char>) -> Seq<nat> {
    pieces(strip_leading(trim(v), 'v'), '.').map_values(|p: Seq<char>| component_value(p))
}

proof fn lemma_digits_step(s: Seq<char>, i: int)
    requires
        0 <= i < s.len(),
    ensures
        digits_value(s.take(i + 1)) == digits_value(s.take(i)) * 10 + ((s[i] as u32) - 48) as nat,
{
    assert(s.take(i + 1).drop_last() =~= s.take(i));
}

proof fn lemma_digits_monotone(s: Seq<char>, i: int)
    requires
        0 <= i <= s.len(),
        all_digits(s),
    ensures
        digits_value(s.take(i)) <= digits_value(s),
    decreases s.len() - i,
{
    if i < s.len() {
        lemma_digits_monotone(s, i + 1);
        lemma_digits_step(s, i);
        assert(s.take(s.len() as int) =~= s);
    } else {
        assert(s.take(i) =~= s);
    }
}

/// Reads an unsigned number as `u64::from_str` does.
pub fn parse_u64(s: &Vec<char>) -> (r: Option<u64>)
    ensures
        match r {
            Some(n) => parse_u64_spec(s@) == Some(n as nat),
            None => parse_u64_spec(s@) is None,
        },
{
    let start: usize = if s.len() > 0 && s[0] == '+' {
        1
    } else {
        0
    };
    let ghost d = if s@.len() > 0 && s@[0] == '+' {
        s@.drop_first()
    } else {
        s@
    };
    assert(d =~= s@.skip(start as int));
    if start >= s.len() {
        assert(d.len() == 0);
        return None;
    }
    let mut n: u64 = 0;
    let mut i = start;
    while i < s.len()
        invariant
            start <= i <= s@.len(),
            d == s@.skip(start as int),
            d == (if s@.len() > 0 && s@[0] == '+' {
                s@.drop_first()
            } else {
                s@
            }),
            n as nat == digits_value(d.take(i - start)),
            forall|j: int| 0 <= j < i - start ==> crate::text::is_ascii_digit(#[trigger] d[j]),
        decreases s.len() - i,
    {
        let c = s[i];
        if !chars::is_ascii_digit(c) {
            assert(d[i - start] == c);
            assert(!all_digits(d));
            return None;
        }
        proof {
            lemma_digits_step(d, i - start);
        }
        let dv = ((c as u32) - 48) as u64;
        match n.checked_mul(10) {
            Some(m) => match m.checked_add(dv) {
                Some(m2) => {
                    n = m2;
                },
                None => {
                    proof {
                        assert(digits_value(d.take(i + 1 - start)) > u64::MAX);
                        if all_digits(d) {
                            lemma_digits_monotone(d, i + 1 - start);
                        }
                    }
                    return None;
                },
            },
            None => {
                proof {
                    assert(digits_value(d.take(i + 1 - start)) > u64::MAX);
                    if all_digits(d) {
                        lemma_digits_monotone(d, i + 1 - start);
                    }
                }
                return None;
            },
        }
        i = i + 1;
    }
    assert(d.take(s@.len() - start) =~= d);
    Some(n)
}

/// `a` is greater than `b` in the lexicographic order of sequences.
pub open spec fn lex_greater(a: Seq<nat>, b: Seq<nat>) -> bool
    decreases a.len(),
{
    if a.len() == 0 {
        false
    } else if b.len() == 0 {
        true
    } else if a[0] != b[0] {
        a[0] > b[0]
    } else {
        lex_greater(a.drop_first(), b.drop_first())
    }
}

pub open spec fn nat_views(v: Seq<u64>) -> Seq<nat> {
    v.map_values(|x: u64| x as nat)
}

/// The numeric components of a version text.
pub fn ver_tuple(v: &str) -> (r: Vec<u64>)
    ensures
        nat_views(r@) == ver_tuple_spec(v@),
{
    let base = chars::strip_leading(&chars::trim(&chars::chars_of(v)), 'v');
    let mut out: Vec<u64> = Vec::new();
    let mut rest = base;
    let dot = vec!['.'];
    assert(dot@ =~= seq!['.']);
    let ghost whole = pieces(rest@, '.');
    loop
        invariant
            dot@ == seq!['.'],
            whole == pieces(strip_leading(trim(v@), 'v'), '.'),
            whole.map_values(|p: Seq<char>| component_value(p)) == nat_views(out@)
                + pieces(rest@, '.').map_values(|p: Seq<char>| component_value(p)),
        decreases rest@.len(),
    {
        proof {
            lemma_first_in(rest@, seq!['.'], 0);
        }
        let piece_end = chars::first_in(&rest, &dot, 0);
        let (piece, next) = match piece_end {
            Some(i) => (chars::slice(&rest, 0, i), Some(chars::slice(&rest, i + 1, rest.len()))),
            None => (chars::slice(&rest, 0, rest.len()), None),
        };
        let val: u64 = match parse_u64(&chars::trim(&piece)) {
            Some(x) => x,
            None => 0,
        };
        let ghost o0 = nat_views(out@);
        out.push(val);
        assert(nat_views(out@) =~= o0.push(component_value(piece@)));
        match next {
            Some(nx) => {
                proof {
                    let ps = pieces(rest@, '.');
                    assert(ps =~= seq![piece@] + pieces(nx@, '.'));
                    let f = |p: Seq<char>| component_value(p);
                    assert(ps.map_values(f) =~= seq![component_value(piece@)] + pieces(
                        nx@,
                        '.',
                    ).map_values(f));
                }
                rest = nx;
            },
            None => {
                proof {
                    assert(rest@.subrange(0, rest@.len() as int) =~= rest@);
                    let f = |p: Seq<char>| component_value(p);
                    assert(pieces(rest@, '.').map_values(f) =~= seq![component_value(piece@)]);
                    assert(whole.map_values(f) =~= nat_views(out@));
                }
                return out;
            },
        }
    }
}

/// Whether the latest release tag names a newer version than the running one.
pub fn has_update(current: &str, tag: &str) -> (r: bool)
    ensures
        r == (tag@.len() > 0 && lex_greater(ver_tuple_spec(tag@), ver_tuple_spec(current@))),
{
    if tag.unicode_len() == 0 {
        return false;
    }
    let c = ver_tuple(current);
    let l = ver_tuple(tag);
    let mut i: usize = 0;
    assert(nat_views(l@).skip(0) =~= nat_views(l@));
    assert(nat_views(c@).skip(0) =~= nat_views(c@));
    while i < l.len() && i < c.len() && l[i] == c[i]
        invariant
            i <= l@.len(),
            i <= c@.len(),
            lex_greater(nat_views(l@), nat_views(c@)) == lex_greater(
                nat_views(l@).skip(i as int),
                nat_views(c@).skip(i as int),
            ),
        decreases l.len() - i,
    {
        assert(nat_views(l@).skip(i as int).drop_first() =~= nat_views(l@).skip(i + 1));
        assert(nat_views(c@).skip(i as int).drop_first() =~= nat_views(c@).skip(i + 1));
        i = i + 1;
    }
    if i >= l.len() {
        return false;
    }
    if i >= c.len() {
        return true;
    }
    l[i] > c[i]
}

/// The link to open in the browser: the trimmed text when it is an
/// `http://` or `https://` link, else `None` (refused).
pub open spec fn link_target_spec(url: Seq<char>) -> Option<Seq<char>> {
    if starts_with(trim(url), "http://"@) || starts_with(trim(url), "https://"@) {
        Some(trim(url))
    } else {
        None
    }
}

pub fn link_target(url: &str) -> (r: Option<String>)
    ensures
        opt_view(r) == link_target_spec(url@),
{
    let u = chars::trim(&chars::chars_of(url));
    if chars::starts_with_str(&u, "http://") || chars::starts_with_str(&u, "https://") {
        Some(chars::string_of(&u))
    } else {
        None
    }
}

/// The link to open, or the error for a link that is refused (see
/// `link_target`).
pub fn checked_link(url: &str) -> (r: Result<String, String>)
    ensures
        match r {
            Ok(u) => link_target_spec(url@) == Some(u@),
            Err(e) => link_target_spec(url@) is None && e@ == json_pair_text(
                "不支持的链接, 仅允许 http/https"@,
                "Unsupported link, only http/https allowed"@,
            ),
        },
{
    match link_target(url) {
        Some(u) => Ok(u),
        None => Err(bi("不支持的链接, 仅允许 http/https", "Unsupported link, only http/https allowed")),
    }
}

/// What the release check reports: the running version, the latest release
/// tag, whether it is newer, and the page to open.
pub struct UpdateInfo {
    pub current: String,
    pub latest: String,
    pub has_update: bool,
    pub url: String,
}

/// The release check's answer from the release service's reply (its JSON
/// text, or `None` when there was none): the latest tag is the reply's
/// `tag_name` (empty when missing), the page its `html_url` (else
/// `release_page`).
pub fn update_info(current: &str, release_page: &str, response: Option<&str>) -> (r: UpdateInfo)
    ensures
        ({
            let tag = match response {
                Some(t) => match json_string_member(t@, "tag_name"@) {
                    Some(x) => x,
                    None => Seq::empty(),
                },
                None => Seq::empty(),
            };
            &&& r.current@ == current@
            &&& r.latest@ == tag
            &&& r.has_update == (tag.len() > 0 && lex_greater(
                ver_tuple_spec(tag),
                ver_tuple_spec(current@),
            ))
            &&& r.url@ == match response {
                Some(t) => match json_string_member(t@, "html_url"@) {
                    Some(u) => u,
                    None => release_page@,
                },
                None => release_page@,
            }
        }),
{
    let (tag, url) = match response {
        Some(t) => {
            let tag = match json_member(t, "tag_name") {
                Some(x) => x,
                None => String::new(),
            };
            let url = match json_member(t, "html_url") {
                Some(u) => u,
                None => chars::owned(release_page),
            };
            (tag, url)
        },
        None => (String::new(), chars::owned(release_page)),
    };
    let newer = has_update(current, tag.as_str());
    UpdateInfo { current: chars::owned(current), latest: tag, has_update: newer, url }
}

} // verus!
