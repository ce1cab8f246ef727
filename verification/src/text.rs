//! Character-level string utilities shared by the parsers and renderers.

use vstd::prelude::*;
use vstd::utf8::{decode_utf8, valid_utf8};

verus! {

/// Appends one character to a `String` (`String::push`).
#[verifier::external_body]
pub(crate) fn push_char(s: &mut String, c: char)
    ensures
        final(s)@ == old(s)@.push(c),
{
    s.push(c);
}

/// The characters of a string slice, in order.
pub fn chars_of(s: &str) -> (v: Vec<char>)
    ensures
        v@ == s@,
{
    let mut v: Vec<char> = Vec::new();
    for c in it: s.chars()
        invariant
            v@ == it.seq().take(it.index() as int),
    {
        v.push(c);
    }
    v
}

/// A string made of the given characters.
pub fn string_from_chars(cs: &[char]) -> (s: String)
    ensures
        s@ == cs@,
{
    let mut s = String::new();
    let mut i: usize = 0;
    while i < cs.len()
        invariant
            i <= cs.len(),
            s@ == cs@.take(i as int),
        decreases cs.len() - i,
    {
        push_char(&mut s, cs[i]);
        assert(cs@.take(i + 1) == cs@.take(i as int).push(cs@[i as int]));
        i = i + 1;
    }
    assert(cs@.take(cs.len() as int) == cs@);
    s
}


/// Unicode `White_Space` characters, the set that `char::is_whitespace`
/// and `str::trim` use.
pub open spec fn is_white_space(c: char) -> bool {
    let u = c as u32;
    ||| (0x09 <= u && u <= 0x0d)
    ||| u == 0x20
    ||| u == 0x85
    ||| u == 0xa0
    ||| u == 0x1680
    ||| (0x2000 <= u && u <= 0x200a)
    ||| u == 0x2028
    ||| u == 0x2029
    ||| u == 0x202f
    ||| u == 0x205f
    ||| u == 0x3000
}

/// Whether `c` is a Unicode white-space character.
pub fn is_white_space_char(c: char) -> (b: bool)
    ensures
        b == is_white_space(c),
{
    let u = c as u32;
    (0x09 <= u && u <= 0x0d) || u == 0x20 || u == 0x85 || u == 0xa0 || u == 0x1680 || (0x2000
        <= u && u <= 0x200a) || u == 0x2028 || u == 0x2029 || u == 0x202f || u == 0x205f || u
        == 0x3000
}

/// `s` without its leading white space.
pub open spec fn trim_start(s: Seq<char>) -> Seq<char>
    decreases s.len(),
{
    if s.len() > 0 && is_white_space(s[0]) {
        trim_start(s.drop_first())
    } else {
        s
    }
}

/// `s` without its trailing white space.
pub open spec fn trim_end(s: Seq<char>) -> Seq<char>
    decreases s.len(),
{
    if s.len() > 0 && is_white_space(s.last()) {
        trim_end(s.drop_last())
    } else {
        s
    }
}

/// `s` without leading and trailing white space, as `str::trim` gives it.
pub open spec fn trim(s: Seq<char>) -> Seq<char> {
    trim_end(trim_start(s))
}

proof fn lemma_trim_start_skip(s: Seq<char>, i: int)
    requires
        0 <= i <= s.len(),
        forall|j: int| 0 <= j < i ==> is_white_space(#[trigger] s[j]),
    ensures
        trim_start(s) == trim_start(s.subrange(i, s.len() as int)),
    decreases i,
{
    if i > 0 {
        assert(s.drop_first().subrange(i - 1, s.drop_first().len() as int) =~= s.subrange(
            i,
            s.len() as int,
        ));
        lemma_trim_start_skip(s.drop_first(), i - 1);
    } else {
        assert(s.subrange(0, s.len() as int) =~= s);
    }
}

proof fn lemma_trim_end_skip(s: Seq<char>, k: int)
    requires
        0 <= k <= s.len(),
        forall|j: int| k <= j < s.len() ==> is_white_space(#[trigger] s[j]),
    ensures
        trim_end(s) == trim_end(s.subrange(0, k)),
    decreases s.len() - k,
{
    if k < s.len() {
        assert(s.drop_last().subrange(0, k) =~= s.subrange(0, k));
        lemma_trim_end_skip(s.drop_last(), k);
    } else {
        assert(s.subrange(0, k) =~= s);
    }
}

/// The characters of `cs` without leading and trailing white space.
pub fn trim_chars(cs: &[char]) -> (r: Vec<char>)
    ensures
        r@ == trim(cs@),
{
    let n = cs.len();
    let mut a: usize = 0;
    while a < n && is_white_space_char(cs[a])
        invariant
            a <= n == cs@.len(),
            forall|j: int| 0 <= j < a ==> is_white_space(#[trigger] cs@[j]),
        decreases n - a,
    {
        a = a + 1;
    }
    proof {
        lemma_trim_start_skip(cs@, a as int);
    }
    let ghost rest = cs@.subrange(a as int, n as int);
    let mut b: usize = n;
    while b > a && is_white_space_char(cs[b - 1])
        invariant
            a <= b <= n == cs@.len(),
            rest == cs@.subrange(a as int, n as int),
            forall|j: int| b <= j < n ==> is_white_space(#[trigger] cs@[j]),
        decreases b,
    {
        b = b - 1;
    }
    proof {
        assert forall|j: int| b - a <= j < rest.len() implies is_white_space(#[trigger] rest[j]) by {
            assert(rest[j] == cs@[j + a]);
        }
        lemma_trim_end_skip(rest, b - a);
        assert(rest.subrange(0, b - a) =~= cs@.subrange(a as int, b as int));
        if a < n {
            assert(!is_white_space(rest[0]));
        }
        assert(trim_start(rest) == rest);
    }
    let mut r: Vec<char> = Vec::new();
    let mut i: usize = a;
    while i < b
        invariant
            a <= i <= b <= n == cs@.len(),
            r@ == cs@.subrange(a as int, i as int),
        decreases b - i,
    {
        r.push(cs[i]);
        assert(cs@.subrange(a as int, i + 1) == cs@.subrange(a as int, i as int).push(cs@[i as int]));
        i = i + 1;
    }
    r
}


/// `pat` occurs in `s` starting at index `i`.
pub open spec fn occurs_at(s: Seq<char>, pat: Seq<char>, i: int) -> bool {
    0 <= i && i + pat.len() <= s.len() && s.subrange(i, i + pat.len()) == pat
}

/// The first index at or after `i` where `pat` occurs in `s`.
pub open spec fn first_occurrence_from(s: Seq<char>, pat: Seq<char>, i: int) -> Option<int>
    decreases s.len() + 1 - i,
{
    if i < 0 || i + pat.len() > s.len() {
        None
    } else if occurs_at(s, pat, i) {
        Some(i)
    } else {
        first_occurrence_from(s, pat, i + 1)
    }
}

/// The first index where `pat` occurs in `s`, as `str::find` reports it
/// (counted in characters).
pub open spec fn first_occurrence(s: Seq<char>, pat: Seq<char>) -> Option<int> {
    first_occurrence_from(s, pat, 0)
}

/// `pat` occurs somewhere in `s` (`str::contains`).
pub open spec fn contains_seq(s: Seq<char>, pat: Seq<char>) -> bool {
    first_occurrence(s, pat) is Some
}

pub proof fn lemma_first_occurrence_found(s: Seq<char>, pat: Seq<char>, i: int)
    ensures
        first_occurrence_from(s, pat, i) matches Some(k) ==> i <= k && occurs_at(s, pat, k),
    decreases s.len() + 1 - i,
{
    if !(i < 0 || i + pat.len() > s.len()) && !occurs_at(s, pat, i) {
        lemma_first_occurrence_found(s, pat, i + 1);
    }
}

/// Whether `pat` occurs in `s` at index `i`.
fn matches_at(s: &[char], pat: &[char], i: usize) -> (b: bool)
    requires
        i + pat.len() <= s.len(),
    ensures
        b == occurs_at(s@, pat@, i as int),
{
    let mut j: usize = 0;
    while j < pat.len()
        invariant
            j <= pat.len(),
            i + pat.len() <= s.len(),
            forall|k: int| 0 <= k < j ==> s@[i + k] == pat@[k],
        decreases pat.len() - j,
    {
        if s[i + j] != pat[j] {
            assert(s@.subrange(i as int, i + pat.len())[j as int] != pat@[j as int]);
            return false;
        }
        j = j + 1;
    }
    assert(s@.subrange(i as int, i + pat.len()) =~= pat@);
    true
}

/// The first index where `pat` occurs in `s`.
pub fn find_chars(s: &[char], pat: &[char]) -> (r: Option<usize>)
    ensures
        r matches Some(k) ==> first_occurrence(s@, pat@) == Some(k as int),
        r is None ==> first_occurrence(s@, pat@) is None,
{
    if pat.len() > s.len() {
        return None;
    }
    let last = s.len() - pat.len();
    let mut i: usize = 0;
    loop
        invariant
            i <= last,
            last + pat.len() == s.len(),
            first_occurrence(s@, pat@) == first_occurrence_from(s@, pat@, i as int),
        decreases last - i,
    {
        if matches_at(s, pat, i) {
            return Some(i);
        }
        if i == last {
            assert(first_occurrence_from(s@, pat@, i + 1) is None);
            return None;
        }
        i = i + 1;
    }
}

/// Whether `pat` occurs in `s`.
pub fn contains_chars(s: &[char], pat: &[char]) -> (b: bool)
    ensures
        b == contains_seq(s@, pat@),
{
    find_chars(s, pat).is_some()
}

/// The characters of `s` from index `from` (inclusive) to `to` (exclusive).
pub fn slice_chars(s: &[char], from: usize, to: usize) -> (r: Vec<char>)
    requires
        from <= to <= s.len(),
    ensures
        r@ == s@.subrange(from as int, to as int),
{
    let mut r: Vec<char> = Vec::new();
    let mut i: usize = from;
    while i < to
        invariant
            from <= i <= to <= s.len(),
            r@ == s@.subrange(from as int, i as int),
        decreases to - i,
    {
        r.push(s[i]);
        assert(s@.subrange(from as int, i + 1) == s@.subrange(from as int, i as int).push(
            s@[i as int],
        ));
        i = i + 1;
    }
    r
}

/// The ASCII digit character for `d < 10`.
pub open spec fn digit_char(d: nat) -> char {
    (('0' as u32) + d) as char
}

/// The decimal representation of `n`, as `Display` writes it for integers.
pub open spec fn decimal(n: nat) -> Seq<char>
    decreases n,
{
    if n < 10 {
        seq![digit_char(n)]
    } else {
        decimal(n / 10).push(digit_char(n % 10))
    }
}

fn digit_to_char(d: u64) -> (c: char)
    requires
        d < 10,
    ensures
        c == digit_char(d as nat),
{
    let c: char = if d == 0 { '0' } else if d == 1 { '1' } else if d == 2 { '2' } else if d == 3 {
        '3'
    } else if d == 4 { '4' } else if d == 5 { '5' } else if d == 6 { '6' } else if d == 7 {
        '7'
    } else if d == 8 { '8' } else { '9' };
    c
}

pub proof fn lemma_decimal_digits(n: nat)
    ensures
        decimal(n).len() > 0,
        all_ascii_digits(decimal(n)),
        digits_value(decimal(n)) == n,
    decreases n,
{
    if n >= 10 {
        lemma_decimal_digits(n / 10);
        let d = decimal(n / 10).push(digit_char(n % 10));
        assert(d.drop_last() =~= decimal(n / 10));
        assert(d.last() == digit_char(n % 10));
        assert((digit_char(n % 10) as u32) == ('0' as u32) + n % 10);
        assert(decimal(n) == d);
        assert(digits_value(d) == digits_value(decimal(n / 10)) * 10 + ((d.last() as u32) - ('0' as u32)) as nat);
        assert((n / 10) * 10 + n % 10 == n);
    } else {
        let d = seq![digit_char(n)];
        assert((digit_char(n) as u32) == ('0' as u32) + n);
        assert(d.drop_last() =~= Seq::<char>::empty());
        assert(decimal(n) == d);
        assert(digits_value(d) == digits_value(d.drop_last()) * 10 + ((d.last() as u32) - ('0' as u32)) as nat);
    }
}

/// Parsing the decimal representation of a `u16` gives it back.
pub proof fn law_parse_u16_of_decimal(n: u16)
    ensures
        parse_u16_spec(decimal(n as nat)) == Some(n),
{
    lemma_decimal_digits(n as nat);
    let d = decimal(n as nat);
    assert(is_ascii_digit(d[0]));
    assert(unsigned_digits(d) == d);
}

/// Appends the decimal representation of `n` to `s`.
pub fn push_decimal(s: &mut String, n: u64)
    ensures
        final(s)@ == old(s)@ + decimal(n as nat),
    decreases n,
{
    if n >= 10 {
        push_decimal(s, n / 10);
    }
    push_char(s, digit_to_char(n % 10));
    proof {
        if n >= 10 {
            assert(decimal(n as nat) == decimal((n / 10) as nat).push(digit_char((n % 10) as nat)));
        } else {
            assert(decimal(n as nat) =~= seq![digit_char(n as nat)]);
        }
    }
}

/// The decimal representation of `n` as a new string.
pub fn decimal_string(n: u64) -> (s: String)
    ensures
        s@ == decimal(n as nat),
{
    let mut s = String::new();
    push_decimal(&mut s, n);
    assert(s@ =~= decimal(n as nat));
    s
}

/// An ASCII decimal digit.
pub open spec fn is_ascii_digit(c: char) -> bool {
    '0' <= c && c <= '9'
}

/// The value of a sequence of ASCII decimal digits.
pub open spec fn digits_value(d: Seq<char>) -> nat
    decreases d.len(),
{
    if d.len() == 0 {
        0
    } else {
        digits_value(d.drop_last()) * 10 + ((d.last() as u32) - ('0' as u32)) as nat
    }
}

/// The digits of an unsigned number in `s`: `s` without one leading `+`.
pub open spec fn unsigned_digits(s: Seq<char>) -> Seq<char> {
    if s.len() > 0 && s[0] == '+' {
        s.drop_first()
    } else {
        s
    }
}

/// Every character of `d` is an ASCII digit.
pub open spec fn all_ascii_digits(d: Seq<char>) -> bool {
    forall|i: int| 0 <= i < d.len() ==> is_ascii_digit(#[trigger] d[i])
}

/// The value that `str::parse::<u16>` gives for `s`: an optional leading
/// `+`, then at least one ASCII digit and nothing else, with a value that
/// fits in a `u16`.
pub open spec fn parse_u16_spec(s: Seq<char>) -> Option<u16> {
    let d = unsigned_digits(s);
    if d.len() > 0 && all_ascii_digits(d) && digits_value(d) <= u16::MAX {
        Some(digits_value(d) as u16)
    } else {
        None
    }
}

proof fn lemma_digits_value_prefix(d: Seq<char>, i: int)
    requires
        0 <= i <= d.len(),
        forall|k: int| 0 <= k < d.len() ==> is_ascii_digit(#[trigger] d[k]),
    ensures
        digits_value(d.take(i)) <= digits_value(d),
    decreases d.len() - i,
{
    if i < d.len() {
        lemma_digits_value_prefix(d, i + 1);
        assert(d.take(i + 1).drop_last() =~= d.take(i));
    } else {
        assert(d.take(i) =~= d);
    }
}

/// Parses `s` as `str::parse::<u16>` does.
pub fn parse_u16(s: &[char]) -> (r: Option<u16>)
    ensures
        r == parse_u16_spec(s@),
{
    let start: usize = if s.len() > 0 && s[0] == '+' { 1 } else { 0 };
    let ghost d = unsigned_digits(s@);
    assert(d =~= s@.subrange(start as int, s@.len() as int));
    if start >= s.len() {
        return None;
    }
    let mut acc: u32 = 0;
    let mut i: usize = start;
    while i < s.len()
        invariant
            start <= i <= s.len(),
            d == s@.subrange(start as int, s@.len() as int),
            d == unsigned_digits(s@),
            forall|k: int| 0 <= k < i - start ==> is_ascii_digit(#[trigger] d[k]),
            acc == digits_value(d.take(i - start)),
            acc <= u16::MAX,
        decreases s.len() - i,
    {
        let c = s[i];
        if !('0' <= c && c <= '9') {
            assert(d[i - start] == c);
            assert(!is_ascii_digit(d[i - start]));
            assert(parse_u16_spec(s@) is None);
            return None;
        }
        let digit = (c as u32) - ('0' as u32);
        assert(d.take(i + 1 - start).drop_last() =~= d.take(i - start));
        assert(d.take(i + 1 - start).last() == c);
        assert(digits_value(d.take(i + 1 - start)) == acc * 10 + digit);
        if acc * 10 + digit > 65535 {
            proof {
                if all_ascii_digits(d) {
                    lemma_digits_value_prefix(d, i + 1 - start);
                }
            }
            assert(parse_u16_spec(s@) is None);
            return None;
        }
        acc = acc * 10 + digit;
        i = i + 1;
    }
    assert(d.take(i - start) =~= d);
    Some(acc as u16)
}

/// The lower-case form of an ASCII letter; other characters are kept.
pub open spec fn ascii_lower(c: char) -> char {
    if 'A' <= c && c <= 'Z' {
        ((c as u32) + 32) as char
    } else {
        c
    }
}

/// `s` with ASCII letters mapped to lower case (`str::to_ascii_lowercase`).
pub open spec fn ascii_lowercase(s: Seq<char>) -> Seq<char> {
    s.map_values(|c: char| ascii_lower(c))
}

/// `cs` with ASCII letters mapped to lower case.
pub fn ascii_lowercase_chars(cs: &[char]) -> (r: Vec<char>)
    ensures
        r@ == ascii_lowercase(cs@),
{
    let mut r: Vec<char> = Vec::new();
    let mut i: usize = 0;
    while i < cs.len()
        invariant
            i <= cs.len(),
            r@ == ascii_lowercase(cs@.take(i as int)),
        decreases cs.len() - i,
    {
        let c = cs[i];
        let l = if 'A' <= c && c <= 'Z' {
            ((c as u8) + 32) as char
        } else {
            c
        };
        r.push(l);
        assert(ascii_lowercase(cs@.take(i + 1)) =~= ascii_lowercase(cs@.take(i as int)).push(
            ascii_lower(c),
        ));
        i = i + 1;
    }
    assert(cs@.take(cs.len() as int) =~= cs@);
    r
}


/// What `String::from_utf8_lossy` decodes from `bytes`.
pub uninterp spec fn utf8_lossy(bytes: Seq<u8>) -> Seq<char>;

/// The UTF-16 decoding of `units` with invalid data replaced, as
/// `String::from_utf16_lossy` gives it: a unit outside the surrogate range
/// is its own character, a high surrogate followed by a low one is the
/// supplementary character of the pair, and any other surrogate becomes
/// U+FFFD.
pub open spec fn utf16_lossy(units: Seq<u16>) -> Seq<char>
    decreases units.len(),
{
    if units.len() == 0 {
        Seq::empty()
    } else if units[0] < 0xD800 || units[0] > 0xDFFF {
        seq![units[0] as char] + utf16_lossy(units.drop_first())
    } else if units[0] <= 0xDBFF && units.len() >= 2 && 0xDC00 <= units[1] && units[1] <= 0xDFFF {
        seq![(0x10000 + (units[0] - 0xD800) * 0x400 + (units[1] - 0xDC00)) as char] + utf16_lossy(
            units.subrange(2, units.len() as int),
        )
    } else {
        seq!['\u{FFFD}'] + utf16_lossy(units.drop_first())
    }
}

/// What `str::to_lowercase` gives for `s`.
pub uninterp spec fn unicode_lowercase(s: Seq<char>) -> Seq<char>;

/// Decodes `bytes` as UTF-8, replacing invalid sequences with U+FFFD
/// (`String::from_utf8_lossy`). The result is named by `utf8_lossy`; on valid
/// UTF-8 it is the plain decoding.
#[verifier::external_body]
pub(crate) fn decode_utf8_lossy(bytes: &[u8]) -> (s: String)
    ensures
        s@ == utf8_lossy(bytes@),
        valid_utf8(bytes@) ==> s@ == decode_utf8(bytes@),
{
    String::from_utf8_lossy(bytes).into_owned()
}

/// Decodes `units` as UTF-16, replacing unpaired surrogates with U+FFFD
/// (`String::from_utf16_lossy`), as `utf16_lossy` states.
#[verifier::external_body]
pub(crate) fn decode_utf16_lossy(units: &[u16]) -> (s: String)
    ensures
        s@ == utf16_lossy(units@),
{
    String::from_utf16_lossy(units)
}

/// The Unicode lower-case form of `s` (`str::to_lowercase`), named by
/// `unicode_lowercase`.
#[verifier::external_body]
pub(crate) fn to_lowercase_string(s: &str) -> (r: String)
    ensures
        r@ == unicode_lowercase(s@),
{
    s.to_lowercase()
}

/// Every character of `s` is ASCII.
pub open spec fn is_ascii_text(s: Seq<char>) -> bool {
    forall|i: int| 0 <= i < s.len() ==> (#[trigger] s[i] as u32) < 128
}

/// The lower-case form of `s` as `str::to_lowercase` gives it: ASCII text is
/// lowered letter by letter, other text as `unicode_lowercase` names it.
pub open spec fn lowercase(s: Seq<char>) -> Seq<char> {
    if is_ascii_text(s) {
        ascii_lowercase(s)
    } else {
        unicode_lowercase(s)
    }
}

/// The lower-case form of `cs` (`str::to_lowercase`); ASCII text is lowered
/// here, other text by the standard library.
pub fn lowercase_chars(cs: &[char]) -> (r: Vec<char>)
    ensures
        r@ == lowercase(cs@),
{
    let mut i: usize = 0;
    while i < cs.len()
        invariant
            i <= cs.len(),
            forall|k: int| 0 <= k < i ==> (#[trigger] cs@[k] as u32) < 128,
        decreases cs.len() - i,
    {
        if (cs[i] as u32) >= 128 {
            let s = string_from_chars(cs);
            let l = to_lowercase_string(s.as_str());
            return chars_of(l.as_str());
        }
        i = i + 1;
    }
    ascii_lowercase_chars(cs)
}

/// `a` comes strictly before `b` in the order `str` compares by (code point
/// by code point, a proper prefix first).
pub open spec fn lex_lt(a: Seq<char>, b: Seq<char>) -> bool
    decreases a.len(),
{
    if a.len() == 0 {
        b.len() > 0
    } else if b.len() == 0 {
        false
    } else if (a[0] as int) < (b[0] as int) {
        true
    } else if a[0] == b[0] {
        lex_lt(a.drop_first(), b.drop_first())
    } else {
        false
    }
}

/// The order on strings is a strict total order.
pub proof fn lemma_lex_order(a: Seq<char>, b: Seq<char>, c: Seq<char>)
    ensures
        !lex_lt(a, a),
        lex_lt(a, b) ==> !lex_lt(b, a),
        a != b ==> lex_lt(a, b) || lex_lt(b, a),
        lex_lt(a, b) && lex_lt(b, c) ==> lex_lt(a, c),
    decreases a.len(),
{
    if a.len() > 0 && b.len() > 0 && c.len() > 0 {
        lemma_lex_order(a.drop_first(), b.drop_first(), c.drop_first());
    }
    if a.len() > 0 && b.len() > 0 && a[0] == b[0] && a != b {
        assert(a =~= seq![a[0]] + a.drop_first());
        assert(b =~= seq![b[0]] + b.drop_first());
    }
    if a.len() == 0 && b.len() == 0 {
        assert(a =~= b);
    }
    if a.len() > 0 {
        lemma_lex_order(a.drop_first(), a.drop_first(), a.drop_first());
    }
    if a.len() > 0 && b.len() > 0 {
        lemma_lex_order(a.drop_first(), b.drop_first(), b.drop_first());
        if a[0] != b[0] {
            assert((a[0] as int) != (b[0] as int));
        }
    }
}

/// Whether `a` sorts strictly before `b`.
pub fn lex_less(a: &[char], b: &[char]) -> (r: bool)
    ensures
        r == lex_lt(a@, b@),
{
    let mut i: usize = 0;
    assert(a@.skip(0) =~= a@);
    assert(b@.skip(0) =~= b@);
    while i < a.len() && i < b.len() && a[i] == b[i]
        invariant
            i <= a.len(),
            i <= b.len(),
            lex_lt(a@, b@) == lex_lt(a@.skip(i as int), b@.skip(i as int)),
        decreases a.len() - i,
    {
        assert(a@.skip(i + 1) =~= a@.skip(i as int).drop_first());
        assert(b@.skip(i + 1) =~= b@.skip(i as int).drop_first());
        i = i + 1;
    }
    if i == a.len() {
        i < b.len()
    } else if i == b.len() {
        false
    } else {
        a[i] < b[i]
    }
}


/// Whether `a` and `b` hold the same characters.
pub fn chars_equal(a: &[char], b: &[char]) -> (r: bool)
    ensures
        r == (a@ == b@),
{
    if a.len() != b.len() {
        return false;
    }
    let mut i: usize = 0;
    while i < a.len()
        invariant
            i <= a.len() == b.len(),
            forall|k: int| 0 <= k < i ==> a@[k] == b@[k],
        decreases a.len() - i,
    {
        if a[i] != b[i] {
            return false;
        }
        i = i + 1;
    }
    assert(a@ =~= b@);
    true
}

/// Appends the characters of `cs` to `s`.
pub fn push_chars(s: &mut String, cs: &[char])
    ensures
        final(s)@ == old(s)@ + cs@,
{
    let mut i: usize = 0;
    while i < cs.len()
        invariant
            i <= cs.len(),
            s@ == old(s)@ + cs@.take(i as int),
        decreases cs.len() - i,
    {
        push_char(s, cs[i]);
        assert(cs@.take(i + 1) == cs@.take(i as int).push(cs@[i as int]));
        i = i + 1;
    }
    assert(cs@.take(cs.len() as int) =~= cs@);
}

/// The plain values of a sequence of strings.
pub open spec fn strings_view(v: Seq<String>) -> Seq<Seq<char>> {
    v.map_values(|s: String| s@)
}

/// The strings of `list` joined by `sep`.
pub open spec fn join(list: Seq<Seq<char>>, sep: Seq<char>) -> Seq<char>
    decreases list.len(),
{
    if list.len() == 0 {
        Seq::empty()
    } else if list.len() == 1 {
        list[0]
    } else {
        join(list.drop_last(), sep) + sep + list.last()
    }
}

/// The strings of `list` joined by `sep`.
pub fn join_strings(list: &Vec<String>, sep: &str) -> (r: String)
    ensures
        r@ == join(strings_view(list@), sep@),
{
    let mut r = String::new();
    let mut i: usize = 0;
    while i < list.len()
        invariant
            i <= list.len(),
            r@ == join(strings_view(list@).take(i as int), sep@),
        decreases list.len() - i,
    {
        let ghost t = strings_view(list@).take(i + 1);
        assert(t.drop_last() =~= strings_view(list@).take(i as int));
        assert(t.last() == list@[i as int]@);
        if i == 0 {
            r = list[i].clone();
            assert(t =~= seq![list@[0]@]);
        } else {
            r.append(sep);
            r.append(list[i].as_str());
        }
        i = i + 1;
    }
    assert(strings_view(list@).take(list.len() as int) =~= strings_view(list@));
    r
}

} // verus!
