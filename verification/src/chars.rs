//! Executable counterparts of the specifications in `text`, on `Vec<char>`.
use vstd::prelude::*;

use crate::text;

verus! {

/// `String::push` (std): appends one character.
#[verifier::external_body]
fn push_char(s: &mut String, c: char)
    ensures
        final(s)@ == old(s)@.push(c),
{
    s.push(c);
}

/// `char::is_whitespace`: the characters with the Unicode `White_Space`
/// property, the set that `text::is_ws` lists.
pub fn is_whitespace(c: char) -> (r: bool)
    ensures
        r == text::is_ws(c),
{
    ('\t' <= c && c <= '\r') || c == ' ' || c == '\u{85}' || c == '\u{a0}' || c == '\u{1680}'
        || ('\u{2000}' <= c && c <= '\u{200a}') || c == '\u{2028}' || c == '\u{2029}'
        || c == '\u{202f}' || c == '\u{205f}' || c == '\u{3000}'
}

/// `char::is_control`: the characters of general category `Cc`, U+0000 to
/// U+001F and U+007F to U+009F (`text::is_cc`).
pub fn is_control(c: char) -> (r: bool)
    ensures
        r == text::is_cc(c),
{
    c <= '\u{1f}' || ('\u{7f}' <= c && c <= '\u{9f}')
}

pub fn chars_of(s: &str) -> (v: Vec<char>)
    ensures
        v@ == s@,
{
    let mut v: Vec<char> = Vec::new();
    for c in it: s.chars()
        invariant
            it.seq() == s@,
            v@ == it.seq().take(it.index() as int),
    {
        v.push(c);
    }
    v
}

pub fn string_of(v: &Vec<char>) -> (s: String)
    ensures
        s@ == v@,
{
    let mut s = String::new();
    let mut i: usize = 0;
    while i < v.len()
        invariant
            i <= v.len(),
            s@ == v@.take(i as int),
        decreases v.len() - i,
    {
        push_char(&mut s, v[i]);
        assert(v@.take(i + 1) =~= v@.take(i as int).push(v@[i as int]));
        i = i + 1;
    }
    assert(v@.take(v.len() as int) =~= v@);
    s
}

pub fn lower_char(c: char) -> (r: char)
    ensures
        r == text::ascii_lower(c),
{
    if 'A' <= c && c <= 'Z' {
        ((c as u8) + 32) as char
    } else {
        c
    }
}

pub fn is_ascii_digit(c: char) -> (r: bool)
    ensures
        r == text::is_ascii_digit(c),
{
    '0' <= c && c <= '9'
}

pub fn is_ascii_alnum(c: char) -> (r: bool)
    ensures
        r == text::is_ascii_alnum(c),
{
    ('0' <= c && c <= '9') || ('a' <= c && c <= 'z') || ('A' <= c && c <= 'Z')
}

pub fn lower(v: &Vec<char>) -> (r: Vec<char>)
    ensures
        r@ == text::lower(v@),
{
    let mut r: Vec<char> = Vec::new();
    let mut i: usize = 0;
    while i < v.len()
        invariant
            i <= v.len(),
            r@ =~= text::lower(v@.take(i as int)),
        decreases v.len() - i,
    {
        let c = lower_char(v[i]);
        r.push(c);
        assert(text::lower(v@.take(i + 1)) =~= text::lower(v@.take(i as int)).push(c));
        i = i + 1;
    }
    assert(v@.take(v.len() as int) =~= v@);
    r
}

pub fn slice(v: &Vec<char>, a: usize, b: usize) -> (r: Vec<char>)
    requires
        a <= b <= v.len(),
    ensures
        r@ == v@.subrange(a as int, b as int),
{
    let mut r: Vec<char> = Vec::new();
    let mut i: usize = a;
    while i < b
        invariant
            a <= i <= b <= v.len(),
            r@ =~= v@.subrange(a as int, i as int),
        decreases b - i,
    {
        r.push(v[i]);
        i = i + 1;
    }
    r
}

pub fn append(r: &mut Vec<char>, t: &Vec<char>)
    ensures
        final(r)@ == old(r)@ + t@,
{
    let mut i: usize = 0;
    let ghost start = r@;
    while i < t.len()
        invariant
            i <= t.len(),
            r@ =~= start + t@.take(i as int),
        decreases t.len() - i,
    {
        r.push(t[i]);
        i = i + 1;
    }
    assert(t@.take(t.len() as int) =~= t@);
}

/// Appends the characters of a string literal.
pub fn append_str(r: &mut Vec<char>, t: &str)
    ensures
        final(r)@ == old(r)@ + t@,
{
    let tv = chars_of(t);
    append(r, &tv);
}

pub fn eq(a: &Vec<char>, b: &Vec<char>) -> (r: bool)
    ensures
        r == (a@ == b@),
{
    if a.len() != b.len() {
        return false;
    }
    let mut i: usize = 0;
    while i < a.len()
        invariant
            i <= a.len(),
            a.len() == b.len(),
            forall|j: int| 0 <= j < i ==> a@[j] == b@[j],
        decreases a.len() - i,
    {
        if a[i] != b[i] {
            return false;
        }
        i = i + 1;
    }
    assert(a@ =~= b@);
    true
}

pub fn occurs_at(v: &Vec<char>, p: &Vec<char>, i: usize) -> (r: bool)
    ensures
        r == text::occurs_at(v@, p@, i as int),
{
    if i > v.len() || p.len() > v.len() - i {
        return false;
    }
    let mut k: usize = 0;
    while k < p.len()
        invariant
            k <= p.len(),
            i + p.len() <= v.len(),
            forall|j: int| 0 <= j < k ==> v@[i + j] == p@[j],
        decreases p.len() - k,
    {
        if v[i + k] != p[k] {
            assert(v@.subrange(i as int, i + p.len())[k as int] != p@[k as int]);
            return false;
        }
        k = k + 1;
    }
    assert(v@.subrange(i as int, i + p.len()) =~= p@);
    true
}

pub fn starts_with(v: &Vec<char>, p: &Vec<char>) -> (r: bool)
    ensures
        r == text::starts_with(v@, p@),
{
    occurs_at(v, p, 0)
}

pub fn starts_with_str(v: &Vec<char>, p: &str) -> (r: bool)
    ensures
        r == text::starts_with(v@, p@),
{
    let pv = chars_of(p);
    starts_with(v, &pv)
}

pub fn ends_with(v: &Vec<char>, p: &Vec<char>) -> (r: bool)
    ensures
        r == text::ends_with(v@, p@),
{
    if p.len() > v.len() {
        false
    } else {
        occurs_at(v, p, v.len() - p.len())
    }
}

pub fn ends_with_str(v: &Vec<char>, p: &str) -> (r: bool)
    ensures
        r == text::ends_with(v@, p@),
{
    let pv = chars_of(p);
    ends_with(v, &pv)
}

pub fn eq_str(v: &Vec<char>, p: &str) -> (r: bool)
    ensures
        r == (v@ == p@),
{
    let pv = chars_of(p);
    eq(v, &pv)
}

pub fn find_sub(v: &Vec<char>, p: &Vec<char>, start: usize) -> (r: Option<usize>)
    ensures
        match r {
            Some(i) => text::find_sub(v@, p@, start as int) == Some(i as int),
            None => text::find_sub(v@, p@, start as int) is None,
        },
{
    let mut i = start;
    while i <= v.len() && p.len() <= v.len() - i
        invariant
            start <= i,
            text::find_sub(v@, p@, start as int) == text::find_sub(v@, p@, i as int),
        decreases v.len() + 1 - i,
    {
        if occurs_at(v, p, i) {
            return Some(i);
        }
        if i >= v.len() {
            assert(text::find_sub(v@, p@, i as int) == text::find_sub(v@, p@, i + 1));
            assert(text::find_sub(v@, p@, i + 1) is None);
            return None;
        }
        i = i + 1;
    }
    None
}

pub fn contains(v: &Vec<char>, p: &Vec<char>) -> (r: bool)
    ensures
        r == text::contains(v@, p@),
{
    proof {
        text::lemma_contains_find(v@, p@);
    }
    find_sub(v, p, 0).is_some()
}

pub fn contains_str(v: &Vec<char>, p: &str) -> (r: bool)
    ensures
        r == text::contains(v@, p@),
{
    let pv = chars_of(p);
    contains(v, &pv)
}

pub fn first_in(v: &Vec<char>, stops: &Vec<char>, start: usize) -> (r: Option<usize>)
    ensures
        match r {
            Some(i) => text::first_in(v@, stops@, start as int) == Some(i as int),
            None => text::first_in(v@, stops@, start as int) is None,
        },
{
    let mut i = start;
    while i < v.len()
        invariant
            start <= i,
            text::first_in(v@, stops@, start as int) == text::first_in(v@, stops@, i as int),
        decreases v.len() - i,
    {
        if has_char(stops, v[i]) {
            return Some(i);
        }
        i = i + 1;
    }
    None
}

pub fn has_char(v: &Vec<char>, c: char) -> (r: bool)
    ensures
        r == v@.contains(c),
{
    let mut i: usize = 0;
    while i < v.len()
        invariant
            i <= v.len(),
            forall|j: int| 0 <= j < i ==> v@[j] != c,
        decreases v.len() - i,
    {
        if v[i] == c {
            return true;
        }
        i = i + 1;
    }
    false
}

pub fn last_of(v: &Vec<char>, c: char) -> (r: Option<usize>)
    ensures
        match r {
            Some(i) => text::last_of(v@, c) == Some(i as int),
            None => text::last_of(v@, c) is None,
        },
{
    let mut n = v.len();
    assert(v@.take(n as int) =~= v@);
    while n > 0
        invariant
            n <= v.len(),
            text::last_of(v@, c) == text::last_of(v@.take(n as int), c),
        decreases n,
    {
        assert(v@.take(n as int).drop_last() =~= v@.take(n - 1));
        if v[n - 1] == c {
            return Some(n - 1);
        }
        n = n - 1;
    }
    None
}

pub fn before_any(v: &Vec<char>, stops: &Vec<char>) -> (r: Vec<char>)
    ensures
        r@ == text::before_any(v@, stops@),
{
    proof {
        text::lemma_first_in(v@, stops@, 0);
    }
    match first_in(v, stops, 0) {
        Some(i) => slice(v, 0, i),
        None => slice(v, 0, v.len()),
    }
}

pub fn after_last(v: &Vec<char>, c: char) -> (r: Vec<char>)
    ensures
        r@ == text::after_last(v@, c),
{
    proof {
        text::lemma_last_of(v@, c);
    }
    match last_of(v, c) {
        Some(i) => {
            assert(i < v@.len());
            assert(i < v.len());
            slice(v, i + 1, v.len())
        },
        None => slice(v, 0, v.len()),
    }
}

pub fn rsplit_once(v: &Vec<char>, c: char) -> (r: Option<(Vec<char>, Vec<char>)>)
    ensures
        match r {
            Some((a, b)) => text::rsplit_once(v@, c) == Some((a@, b@)),
            None => text::rsplit_once(v@, c) is None,
        },
{
    proof {
        text::lemma_last_of(v@, c);
    }
    match last_of(v, c) {
        Some(i) => {
            assert(i < v.len());
            Some((slice(v, 0, i), slice(v, i + 1, v.len())))
        },
        None => None,
    }
}

pub fn split_once(v: &Vec<char>, sep: &Vec<char>) -> (r: Option<(Vec<char>, Vec<char>)>)
    ensures
        match r {
            Some((a, b)) => text::split_once(v@, sep@) == Some((a@, b@)),
            None => text::split_once(v@, sep@) is None,
        },
{
    proof {
        text::lemma_find_sub_some(v@, sep@, 0);
    }
    match find_sub(v, sep, 0) {
        Some(i) => {
            assert(text::occurs_at(v@, sep@, i as int));
            assert(i + sep@.len() <= v@.len());
            assert(i + sep.len() <= v.len());
            Some((slice(v, 0, i), slice(v, i + sep.len(), v.len())))
        },
        None => None,
    }
}

pub fn second_piece(v: &Vec<char>, sep: &Vec<char>) -> (r: Option<Vec<char>>)
    ensures
        match r {
            Some(a) => text::second_piece(v@, sep@) == Some(a@),
            None => text::second_piece(v@, sep@) is None,
        },
{
    proof {
        text::lemma_find_sub_some(v@, sep@, 0);
    }
    match find_sub(v, sep, 0) {
        Some(i) => {
            assert(text::occurs_at(v@, sep@, i as int));
            assert(i + sep@.len() <= v@.len());
            assert(i + sep.len() <= v.len());
            let rest = slice(v, i + sep.len(), v.len());
            proof {
                text::lemma_find_sub_some(rest@, sep@, 0);
            }
            match find_sub(&rest, sep, 0) {
                Some(j) => Some(slice(&rest, 0, j)),
                None => Some(rest),
            }
        },
        None => None,
    }
}

pub fn trim_start(v: &Vec<char>) -> (r: Vec<char>)
    ensures
        r@ == text::trim_start(v@),
{
    let mut a: usize = 0;
    assert(v@.skip(0) =~= v@);
    while a < v.len() && is_whitespace(v[a])
        invariant
            a <= v.len(),
            text::trim_start(v@) == text::trim_start(v@.skip(a as int)),
        decreases v.len() - a,
    {
        assert(v@.skip(a as int).drop_first() =~= v@.skip(a + 1));
        a = a + 1;
    }
    slice(v, a, v.len())
}

pub fn trim_end(v: &Vec<char>) -> (r: Vec<char>)
    ensures
        r@ == text::trim_end(v@),
{
    let mut b: usize = v.len();
    assert(v@.take(b as int) =~= v@);
    while b > 0 && is_whitespace(v[b - 1])
        invariant
            b <= v.len(),
            text::trim_end(v@) == text::trim_end(v@.take(b as int)),
        decreases b,
    {
        assert(v@.take(b as int).drop_last() =~= v@.take(b - 1));
        b = b - 1;
    }
    slice(v, 0, b)
}

pub fn trim(v: &Vec<char>) -> (r: Vec<char>)
    ensures
        r@ == text::trim(v@),
{
    let a = trim_start(v);
    trim_end(&a)
}

pub fn strip_leading(v: &Vec<char>, c: char) -> (r: Vec<char>)
    ensures
        r@ == text::strip_leading(v@, c),
{
    let mut a: usize = 0;
    assert(v@.skip(0) =~= v@);
    while a < v.len() && v[a] == c
        invariant
            a <= v.len(),
            text::strip_leading(v@, c) == text::strip_leading(v@.skip(a as int), c),
        decreases v.len() - a,
    {
        assert(v@.skip(a as int).drop_first() =~= v@.skip(a + 1));
        a = a + 1;
    }
    slice(v, a, v.len())
}

pub fn strip_trailing(v: &Vec<char>, c: char) -> (r: Vec<char>)
    ensures
        r@ == text::strip_trailing(v@, c),
{
    let mut b: usize = v.len();
    assert(v@.take(b as int) =~= v@);
    while b > 0 && v[b - 1] == c
        invariant
            b <= v.len(),
            text::strip_trailing(v@, c) == text::strip_trailing(v@.take(b as int), c),
        decreases b,
    {
        assert(v@.take(b as int).drop_last() =~= v@.take(b - 1));
        b = b - 1;
    }
    slice(v, 0, b)
}

pub fn first_ws(v: &Vec<char>, start: usize) -> (r: Option<usize>)
    ensures
        match r {
            Some(i) => text::first_ws(v@, start as int) == Some(i as int),
            None => text::first_ws(v@, start as int) is None,
        },
{
    let mut i = start;
    while i < v.len()
        invariant
            start <= i,
            text::first_ws(v@, start as int) == text::first_ws(v@, i as int),
        decreases v.len() - i,
    {
        if is_whitespace(v[i]) {
            return Some(i);
        }
        i = i + 1;
    }
    None
}

pub proof fn lemma_first_ws(s: Seq<char>, start: int)
    requires
        0 <= start,
    ensures
        text::first_ws(s, start) matches Some(i) ==> start <= i < s.len(),
    decreases s.len() - start,
{
    if start < s.len() && !text::is_ws(s[start]) {
        lemma_first_ws(s, start + 1);
    }
}

pub fn first_word(v: &Vec<char>) -> (r: Option<Vec<char>>)
    ensures
        match r {
            Some(w) => text::first_word(v@) == Some(w@),
            None => text::first_word(v@) is None,
        },
{
    let t = trim_start(v);
    if t.len() == 0 {
        return None;
    }
    proof {
        lemma_first_ws(t@, 0);
    }
    match first_ws(&t, 0) {
        Some(i) => Some(slice(&t, 0, i)),
        None => Some(t),
    }
}

pub fn newline() -> (r: Vec<char>)
    ensures
        r@ == text::newline(),
{
    let mut r: Vec<char> = Vec::new();
    r.push('\n');
    assert(r@ =~= text::newline());
    r
}

pub fn strip_cr(v: &Vec<char>) -> (r: Vec<char>)
    ensures
        r@ == text::strip_cr(v@),
{
    if v.len() > 0 && v[v.len() - 1] == '\r' {
        slice(v, 0, v.len() - 1)
    } else {
        slice(v, 0, v.len())
    }
}

pub fn lines(v: &Vec<char>) -> (r: Vec<Vec<char>>)
    ensures
        text::views(r@) == text::lines(v@),
{
    let mut out: Vec<Vec<char>> = Vec::new();
    let mut rest = slice(v, 0, v.len());
    let nl = newline();
    assert(rest@ =~= v@);
    assert(text::views(out@) =~= Seq::<Seq<char>>::empty());
    while rest.len() > 0
        invariant
            nl@ == text::newline(),
            text::lines(v@) == text::views(out@) + text::lines(rest@),
        decreases rest.len(),
    {
        proof {
            text::lemma_first_in(rest@, nl@, 0);
        }
        match first_in(&rest, &nl, 0) {
            Some(i) => {
                let head = slice(&rest, 0, i);
                let line = strip_cr(&head);
                let tail = slice(&rest, i + 1, rest.len());
                let ghost old_out = out@;
                out.push(line);
                assert(text::views(out@) =~= text::views(old_out) + seq![line@]);
                rest = tail;
            },
            None => {
                let ghost old_out = out@;
                let ghost old_rest = rest@;
                out.push(rest);
                assert(text::views(out@) =~= text::views(old_out) + seq![old_rest]);
                assert(text::lines(v@) =~= text::views(out@));
                return out;
            },
        }
    }
    assert(text::views(out@) + text::lines(rest@) =~= text::views(out@));
    out
}

/// An owned copy of a string literal.
pub fn owned(s: &str) -> (r: String)
    ensures
        r@ == s@,
{
    let v = chars_of(s);
    string_of(&v)
}

pub fn domain_match(host: &Vec<char>, d: &str) -> (r: bool)
    ensures
        r == text::domain_match(host@, d@),
{
    let dv = chars_of(d);
    if eq(host, &dv) {
        return true;
    }
    let mut dotted: Vec<char> = Vec::new();
    dotted.push('.');
    append(&mut dotted, &dv);
    assert(dotted@ =~= seq!['.'] + d@);
    ends_with(host, &dotted)
}

pub fn any_domain(host: &Vec<char>, ds: &Vec<&str>) -> (r: bool)
    ensures
        r == text::any_domain(host@, text::strs(ds@)),
{
    let mut i: usize = 0;
    while i < ds.len()
        invariant
            i <= ds.len(),
            forall|j: int| 0 <= j < i ==> !text::domain_match(host@, #[trigger] text::strs(ds@)[j]),
        decreases ds.len() - i,
    {
        if domain_match(host, ds[i]) {
            assert(text::domain_match(host@, text::strs(ds@)[i as int]));
            return true;
        }
        i = i + 1;
    }
    false
}

pub fn any_contained(s: &Vec<char>, ps: &Vec<&str>) -> (r: bool)
    ensures
        r == text::any_contained(s@, text::strs(ps@)),
{
    let mut i: usize = 0;
    while i < ps.len()
        invariant
            i <= ps.len(),
            forall|j: int| 0 <= j < i ==> !text::contains(s@, #[trigger] text::strs(ps@)[j]),
        decreases ps.len() - i,
    {
        if contains_str(s, ps[i]) {
            assert(text::contains(s@, text::strs(ps@)[i as int]));
            return true;
        }
        i = i + 1;
    }
    false
}

pub fn any_prefix(s: &Vec<char>, ps: &Vec<&str>) -> (r: bool)
    ensures
        r == text::any_prefix(s@, text::strs(ps@)),
{
    let mut i: usize = 0;
    while i < ps.len()
        invariant
            i <= ps.len(),
            forall|j: int| 0 <= j < i ==> !text::starts_with(s@, #[trigger] text::strs(ps@)[j]),
        decreases ps.len() - i,
    {
        if starts_with_str(s, ps[i]) {
            assert(text::starts_with(s@, text::strs(ps@)[i as int]));
            return true;
        }
        i = i + 1;
    }
    false
}

pub fn any_suffix(s: &Vec<char>, ps: &Vec<&str>) -> (r: bool)
    ensures
        r == text::any_suffix(s@, text::strs(ps@)),
{
    let mut i: usize = 0;
    while i < ps.len()
        invariant
            i <= ps.len(),
            forall|j: int| 0 <= j < i ==> !text::ends_with(s@, #[trigger] text::strs(ps@)[j]),
        decreases ps.len() - i,
    {
        if ends_with_str(s, ps[i]) {
            assert(text::ends_with(s@, text::strs(ps@)[i as int]));
            return true;
        }
        i = i + 1;
    }
    false
}

/// Decimal rendering of an unsigned integer.
pub fn decimal(n: u128) -> (r: Vec<char>)
    ensures
        r@ == text::decimal(n as nat),
    decreases n,
{
    let d = (n % 10) as u8;
    let c = ((d + 48) as char);
    if n < 10 {
        let mut r: Vec<char> = Vec::new();
        r.push(c);
        assert(r@ =~= text::decimal(n as nat));
        r
    } else {
        let mut r = decimal(n / 10);
        r.push(c);
        r
    }
}

pub fn count_alnum(v: &Vec<char>) -> (r: usize)
    ensures
        r == text::count_alnum(v@),
{
    let mut n: usize = 0;
    let mut i: usize = 0;
    while i < v.len()
        invariant
            i <= v.len(),
            n == text::count_alnum(v@.take(i as int)),
            n <= i,
        decreases v.len() - i,
    {
        assert(v@.take(i + 1).drop_last() =~= v@.take(i as int));
        if is_ascii_alnum(v[i]) {
            n = n + 1;
        }
        i = i + 1;
    }
    assert(v@.take(v.len() as int) =~= v@);
    n
}

} // verus!
