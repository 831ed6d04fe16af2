//! Character-sequence toolkit: the `str` operations that the rest of the
//! library reads URLs, headers and tool output with, each stated over
//! `Seq<char>` and implemented on `Vec<char>`.
use vstd::prelude::*;

verus! {

// ---------------------------------------------------------------------------
// Specifications
// ---------------------------------------------------------------------------

/// ASCII lowercasing of one character; every other character is unchanged.
pub open spec fn ascii_lower(c: char) -> char {
    if 'A' <= c && c <= 'Z' {
        ((c as u32) + 32) as char
    } else {
        c
    }
}

/// `str::to_ascii_lowercase`.
pub open spec fn lower(s: Seq<char>) -> Seq<char> {
    s.map_values(|c: char| ascii_lower(c))
}

pub open spec fn is_ascii_digit(c: char) -> bool {
    '0' <= c && c <= '9'
}

pub open spec fn is_ascii_alnum(c: char) -> bool {
    ('0' <= c && c <= '9') || ('a' <= c && c <= 'z') || ('A' <= c && c <= 'Z')
}

/// The characters with the Unicode `White_Space` property (`char::is_whitespace`).
pub open spec fn is_ws(c: char) -> bool {
    ||| ('\t' <= c && c <= '\r')
    ||| c == ' '
    ||| c == '\u{85}'
    ||| c == '\u{a0}'
    ||| c == '\u{1680}'
    ||| ('\u{2000}' <= c && c <= '\u{200a}')
    ||| c == '\u{2028}'
    ||| c == '\u{2029}'
    ||| c == '\u{202f}'
    ||| c == '\u{205f}'
    ||| c == '\u{3000}'
}

/// The characters of general category `Cc` (`char::is_control`).
pub open spec fn is_cc(c: char) -> bool {
    (c as u32) <= 0x1f || (0x7f <= (c as u32) && (c as u32) <= 0x9f)
}

/// `str::trim_start`.
pub open spec fn trim_start(s: Seq<char>) -> Seq<char>
    decreases s.len(),
{
    if s.len() > 0 && is_ws(s[0]) {
        trim_start(s.drop_first())
    } else {
        s
    }
}

/// `str::trim_end`.
pub open spec fn trim_end(s: Seq<char>) -> Seq<char>
    decreases s.len(),
{
    if s.len() > 0 && is_ws(s.last()) {
        trim_end(s.drop_last())
    } else {
        s
    }
}

/// `str::trim`.
pub open spec fn trim(s: Seq<char>) -> Seq<char> {
    trim_end(trim_start(s))
}

/// `str::trim_start_matches(c)` for one character.
pub open spec fn strip_leading(s: Seq<char>, c: char) -> Seq<char>
    decreases s.len(),
{
    if s.len() > 0 && s[0] == c {
        strip_leading(s.drop_first(), c)
    } else {
        s
    }
}

/// `str::trim_end_matches(c)` for one character.
pub open spec fn strip_trailing(s: Seq<char>, c: char) -> Seq<char>
    decreases s.len(),
{
    if s.len() > 0 && s.last() == c {
        strip_trailing(s.drop_last(), c)
    } else {
        s
    }
}

/// `p` occurs in `s` at position `i`.
pub open spec fn occurs_at(s: Seq<char>, p: Seq<char>, i: int) -> bool {
    0 <= i && i + p.len() <= s.len() && s.subrange(i, i + p.len()) == p
}

pub open spec fn starts_with(s: Seq<char>, p: Seq<char>) -> bool {
    occurs_at(s, p, 0)
}

pub open spec fn ends_with(s: Seq<char>, p: Seq<char>) -> bool {
    p.len() <= s.len() && occurs_at(s, p, s.len() - p.len())
}

/// `str::contains` for a string pattern.
pub open spec fn contains(s: Seq<char>, p: Seq<char>) -> bool {
    exists|i: int| occurs_at(s, p, i)
}

/// The first position at or after `start` where `p` occurs (`str::find` from `start`).
pub open spec fn find_sub(s: Seq<char>, p: Seq<char>, start: int) -> Option<int>
    decreases s.len() + 1 - start,
{
    if start < 0 || start + p.len() > s.len() {
        None
    } else if occurs_at(s, p, start) {
        Some(start)
    } else {
        find_sub(s, p, start + 1)
    }
}

/// The first position at or after `start` whose character is one of `stops`.
pub open spec fn first_in(s: Seq<char>, stops: Seq<char>, start: int) -> Option<int>
    decreases s.len() - start,
{
    if start < 0 || start >= s.len() {
        None
    } else if stops.contains(s[start]) {
        Some(start)
    } else {
        first_in(s, stops, start + 1)
    }
}

/// The last position of `c` in `s` (`str::rfind` of one character).
pub open spec fn last_of(s: Seq<char>, c: char) -> Option<int>
    decreases s.len(),
{
    if s.len() == 0 {
        None
    } else if s.last() == c {
        Some(s.len() - 1)
    } else {
        last_of(s.drop_last(), c)
    }
}

/// `s.split(stops).next().unwrap()`: everything before the first stop character.
pub open spec fn before_any(s: Seq<char>, stops: Seq<char>) -> Seq<char> {
    match first_in(s, stops, 0) {
        Some(i) => s.take(i),
        None => s,
    }
}

/// `s.rsplit(c).next().unwrap()`: everything after the last `c`.
pub open spec fn after_last(s: Seq<char>, c: char) -> Seq<char> {
    match last_of(s, c) {
        Some(i) => s.skip(i + 1),
        None => s,
    }
}

/// `s.rsplit_once(c)`.
pub open spec fn rsplit_once(s: Seq<char>, c: char) -> Option<(Seq<char>, Seq<char>)> {
    match last_of(s, c) {
        Some(i) => Some((s.take(i), s.skip(i + 1))),
        None => None,
    }
}

/// `s.split_once(sep)`.
pub open spec fn split_once(s: Seq<char>, sep: Seq<char>) -> Option<(Seq<char>, Seq<char>)> {
    match find_sub(s, sep, 0) {
        Some(i) => Some((s.take(i), s.skip(i + sep.len()))),
        None => None,
    }
}

/// `s.split(sep).nth(1)` for a non-empty `sep`: the piece between the first
/// and the second occurrence of `sep` (or the end of `s`).
pub open spec fn second_piece(s: Seq<char>, sep: Seq<char>) -> Option<Seq<char>> {
    match find_sub(s, sep, 0) {
        Some(i) => {
            let rest = s.skip(i + sep.len());
            match find_sub(rest, sep, 0) {
                Some(j) => Some(rest.take(j)),
                None => Some(rest),
            }
        },
        None => None,
    }
}

/// One line as `str::lines` yields it: a `\r` directly before the `\n` goes too.
pub open spec fn strip_cr(l: Seq<char>) -> Seq<char> {
    if l.len() > 0 && l.last() == '\r' {
        l.drop_last()
    } else {
        l
    }
}

pub open spec fn newline() -> Seq<char> {
    seq!['\n']
}

/// `str::lines`: split at `\n` (and `\r\n`); a final line ending adds no empty line.
pub open spec fn lines(s: Seq<char>) -> Seq<Seq<char>>
    decreases s.len(),
{
    if s.len() == 0 {
        Seq::empty()
    } else {
        match first_in(s, newline(), 0) {
            Some(i) => {
                proof {
                    lemma_first_in(s, newline(), 0);
                }
                seq![strip_cr(s.take(i))] + lines(s.skip(i + 1))
            },
            None => seq![s],
        }
    }
}

/// `s.split_whitespace().next()`: the first run of non-whitespace characters.
pub open spec fn first_word(s: Seq<char>) -> Option<Seq<char>> {
    let t = trim_start(s);
    if t.len() == 0 {
        None
    } else {
        Some(
            match first_ws(t, 0) {
                Some(i) => t.take(i),
                None => t,
            },
        )
    }
}

/// The first whitespace position at or after `start`.
pub open spec fn first_ws(s: Seq<char>, start: int) -> Option<int>
    decreases s.len() - start,
{
    if start < 0 || start >= s.len() {
        None
    } else if is_ws(s[start]) {
        Some(start)
    } else {
        first_ws(s, start + 1)
    }
}

/// Pieces joined with a separator (`[&str]::join`).
pub open spec fn join(parts: Seq<Seq<char>>, sep: Seq<char>) -> Seq<char>
    decreases parts.len(),
{
    if parts.len() == 0 {
        Seq::empty()
    } else if parts.len() == 1 {
        parts[0]
    } else {
        join(parts.drop_last(), sep) + sep + parts.last()
    }
}

/// The number of ASCII letters and digits in `s`.
pub open spec fn count_alnum(s: Seq<char>) -> nat
    decreases s.len(),
{
    if s.len() == 0 {
        0
    } else {
        count_alnum(s.drop_last()) + if is_ascii_alnum(s.last()) {
            1nat
        } else {
            0nat
        }
    }
}

/// Decimal digits of a natural number, most significant first (`Display` for integers).
pub open spec fn decimal(n: nat) -> Seq<char>
    decreases n,
{
    if n < 10 {
        seq![digit_char(n)]
    } else {
        decimal(n / 10).push(digit_char(n % 10))
    }
}

pub open spec fn digit_char(d: nat) -> char {
    ((d + 48) as u32) as char
}

/// The value of a sequence of ASCII digits.
pub open spec fn digits_value(s: Seq<char>) -> nat
    decreases s.len(),
{
    if s.len() == 0 {
        0
    } else {
        digits_value(s.drop_last()) * 10 + ((s.last() as u32) - 48) as nat
    }
}

pub open spec fn all_digits(s: Seq<char>) -> bool {
    forall|i: int| 0 <= i < s.len() ==> is_ascii_digit(#[trigger] s[i])
}

/// Views of a vector of character vectors.
pub open spec fn views(v: Seq<Vec<char>>) -> Seq<Seq<char>> {
    v.map_values(|x: Vec<char>| x@)
}

/// Views of a list of string literals.
pub open spec fn strs(v: Seq<&str>) -> Seq<Seq<char>> {
    v.map_values(|x: &str| x@)
}

/// `host` is the domain `d` or one of its subdomains (`host == d || host.ends_with(".{d}")`).
pub open spec fn domain_match(host: Seq<char>, d: Seq<char>) -> bool {
    host == d || ends_with(host, seq!['.'] + d)
}

pub open spec fn any_domain(host: Seq<char>, ds: Seq<Seq<char>>) -> bool {
    exists|i: int| 0 <= i < ds.len() && domain_match(host, #[trigger] ds[i])
}

pub open spec fn any_contained(s: Seq<char>, ps: Seq<Seq<char>>) -> bool {
    exists|i: int| 0 <= i < ps.len() && contains(s, #[trigger] ps[i])
}

pub open spec fn any_prefix(s: Seq<char>, ps: Seq<Seq<char>>) -> bool {
    exists|i: int| 0 <= i < ps.len() && starts_with(s, #[trigger] ps[i])
}

pub open spec fn any_suffix(s: Seq<char>, ps: Seq<Seq<char>>) -> bool {
    exists|i: int| 0 <= i < ps.len() && ends_with(s, #[trigger] ps[i])
}

// ---------------------------------------------------------------------------
// Lemmas
// ---------------------------------------------------------------------------

pub proof fn lemma_find_sub_some(s: Seq<char>, p: Seq<char>, start: int)
    requires
        0 <= start,
    ensures
        find_sub(s, p, start) matches Some(i) ==> start <= i && occurs_at(s, p, i) && forall|
            j: int,
        | start <= j < i ==> !occurs_at(s, p, j),
        find_sub(s, p, start) is None ==> forall|j: int| start <= j ==> !occurs_at(s, p, j),
    decreases s.len() + 1 - start,
{
    if start + p.len() > s.len() {
    } else if occurs_at(s, p, start) {
    } else {
        lemma_find_sub_some(s, p, start + 1);
    }
}

pub proof fn lemma_first_in(s: Seq<char>, stops: Seq<char>, start: int)
    requires
        0 <= start,
    ensures
        first_in(s, stops, start) matches Some(i) ==> start <= i < s.len() && stops.contains(s[i])
            && forall|j: int| start <= j < i ==> !stops.contains(#[trigger] s[j]),
        first_in(s, stops, start) is None ==> forall|j: int|
            start <= j < s.len() ==> !stops.contains(#[trigger] s[j]),
    decreases s.len() - start,
{
    if start >= s.len() {
    } else if stops.contains(s[start]) {
    } else {
        lemma_first_in(s, stops, start + 1);
    }
}

pub proof fn lemma_last_of(s: Seq<char>, c: char)
    ensures
        last_of(s, c) matches Some(i) ==> 0 <= i < s.len() && s[i] == c && forall|j: int|
            i < j < s.len() ==> #[trigger] s[j] != c,
        last_of(s, c) is None ==> forall|j: int| 0 <= j < s.len() ==> #[trigger] s[j] != c,
    decreases s.len(),
{
    if s.len() > 0 && s.last() != c {
        lemma_last_of(s.drop_last(), c);
        assert forall|j: int| 0 <= j < s.len() - 1 implies s[j] == s.drop_last()[j] by {}
    }
}

/// `contains` holds exactly when a first occurrence exists.
pub proof fn lemma_contains_find(s: Seq<char>, p: Seq<char>)
    ensures
        contains(s, p) <==> find_sub(s, p, 0) is Some,
{
    lemma_find_sub_some(s, p, 0);
}

/// A first occurrence inside `a` stays the first one when text follows `a`.
pub proof fn lemma_find_sub_prefix(a: Seq<char>, b: Seq<char>, p: Seq<char>, k: int)
    requires
        0 <= k,
        find_sub(a, p, k) is Some,
    ensures
        find_sub(a + b, p, k) == find_sub(a, p, k),
    decreases a.len() + 1 - k,
{
    assert((a + b).subrange(k, k + p.len()) =~= a.subrange(k, k + p.len()));
    if !occurs_at(a, p, k) {
        lemma_find_sub_prefix(a, b, p, k + 1);
    }
}

/// With no occurrence in `a`, and a first character of `b` that `p` does not
/// hold, an occurrence in `a + b` starts after the first character of `b`.
pub proof fn lemma_find_sub_after(a: Seq<char>, b: Seq<char>, p: Seq<char>)
    requires
        find_sub(a, p, 0) is None,
        b.len() > 0,
        !p.contains(b[0]),
    ensures
        find_sub(a + b, p, 0) matches Some(j) ==> j > a.len(),
{
    lemma_find_sub_some(a, p, 0);
    lemma_find_sub_some(a + b, p, 0);
    if let Some(j) = find_sub(a + b, p, 0) {
        if j <= a.len() {
            if j + p.len() <= a.len() {
                assert((a + b).subrange(j, j + p.len()) =~= a.subrange(j, j + p.len()));
                assert(occurs_at(a, p, j));
            } else {
                let m = a.len() - j;
                assert((a + b).subrange(j, j + p.len())[m] == (a + b)[a.len() as int]);
                assert(p[m] == b[0]);
                assert(p.contains(b[0]));
            }
        }
    }
}

/// Scanning `a + u` for stops finds what scanning `a` finds, or else the
/// first character of `u` when that is a stop.
pub proof fn lemma_first_in_concat(a: Seq<char>, u: Seq<char>, stops: Seq<char>, k: int)
    requires
        0 <= k <= a.len(),
        u.len() > 0,
        stops.contains(u[0]),
    ensures
        first_in(a + u, stops, k) == match first_in(a, stops, k) {
            Some(i) => Some(i),
            None => Some(a.len() as int),
        },
    decreases a.len() - k,
{
    if k < a.len() {
        assert((a + u)[k] == a[k]);
        if !stops.contains(a[k]) {
            lemma_first_in_concat(a, u, stops, k + 1);
        }
    } else {
        assert((a + u)[k] == u[0]);
    }
}

/// Text after `a` that starts with a stop does not change the part of `a`
/// before its first stop.
pub proof fn lemma_before_any_concat(a: Seq<char>, u: Seq<char>, stops: Seq<char>)
    requires
        u.len() > 0,
        stops.contains(u[0]),
    ensures
        before_any(a + u, stops) == before_any(a, stops),
{
    lemma_first_in_concat(a, u, stops, 0);
    match first_in(a, stops, 0) {
        Some(i) => {
            lemma_first_in(a, stops, 0);
            assert((a + u).take(i) =~= a.take(i));
        },
        None => {
            assert((a + u).take(a.len() as int) =~= a);
        },
    }
}

/// Trimming the end of `a + b` stops at the last character of `a` when that
/// is not whitespace.
pub proof fn lemma_trim_end_concat(a: Seq<char>, b: Seq<char>)
    requires
        a.len() > 0,
        !is_ws(a.last()),
    ensures
        trim_end(a + b) == a + trim_end(b),
    decreases b.len(),
{
    if b.len() == 0 {
        assert(a + b =~= a);
        assert(a + trim_end(b) =~= a);
    } else {
        assert((a + b).last() == b.last());
        if is_ws(b.last()) {
            assert((a + b).drop_last() =~= a + b.drop_last());
            lemma_trim_end_concat(a, b.drop_last());
        }
    }
}

proof fn lemma_trim_start_len(s: Seq<char>)
    ensures
        trim_start(s).len() <= s.len(),
        s.len() > 0 && is_ws(s[0]) ==> trim_start(s).len() < s.len(),
        trim_start(s).len() == s.len() ==> trim_start(s) == s,
        trim_start(s).len() > 0 ==> trim_start(s).last() == s.last(),
    decreases s.len(),
{
    if s.len() > 0 && is_ws(s[0]) {
        lemma_trim_start_len(s.drop_first());
    }
}

proof fn lemma_trim_end_len(s: Seq<char>)
    ensures
        trim_end(s).len() <= s.len(),
        s.len() > 0 && is_ws(s.last()) ==> trim_end(s).len() < s.len(),
    decreases s.len(),
{
    if s.len() > 0 && is_ws(s.last()) {
        lemma_trim_end_len(s.drop_last());
    }
}

/// A trimmed, non-empty text neither starts nor ends with whitespace.
pub proof fn lemma_trimmed_ends(s: Seq<char>)
    requires
        trim(s) == s,
        s.len() > 0,
    ensures
        !is_ws(s[0]),
        !is_ws(s.last()),
{
    lemma_trim_start_len(s);
    lemma_trim_end_len(trim_start(s));
    if is_ws(s.last()) && trim_start(s).len() > 0 {
        assert(is_ws(trim_start(s).last()));
    }
}

/// Lower-casing goes piece by piece.
pub proof fn lemma_lower_concat(a: Seq<char>, b: Seq<char>)
    ensures
        lower(a + b) == lower(a) + lower(b),
{
    assert(lower(a + b) =~= lower(a) + lower(b));
}

} // verus!
