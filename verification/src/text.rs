//! Text as sequences of characters.
//!
//! Paths, names and command output are looked at character by character; the
//! specifications here say what each operation means on `Seq<char>`.

use crate::bytes::bytes_equal;
use vstd::prelude::*;

verus! {

/// The specification of `String::push`: the character goes to the end.
pub assume_specification[ String::push ](s: &mut String, c: char)
    ensures
        final(s)@ == old(s)@.push(c),
;

// ── Case ────────────────────────────────────────────────────────────

/// `c` in lower case where it is an ASCII letter, else `c` itself.
pub open spec fn lower(c: char) -> char {
    if 'A' <= c <= 'Z' {
        ((c as u8) + 32) as char
    } else {
        c
    }
}

/// `c` in upper case where it is an ASCII letter, else `c` itself.
pub open spec fn upper(c: char) -> char {
    if 'a' <= c <= 'z' {
        ((c as u8) - 32) as char
    } else {
        c
    }
}

/// Every character in lower case.
pub open spec fn lower_all(s: Seq<char>) -> Seq<char> {
    Seq::new(s.len(), |i: int| lower(s[i]))
}

/// Every character in upper case.
pub open spec fn upper_all(s: Seq<char>) -> Seq<char> {
    Seq::new(s.len(), |i: int| upper(s[i]))
}

/// Brings an ASCII letter to lower case.
pub fn to_lower(c: char) -> (r: char)
    ensures
        r == lower(c),
{
    if 'A' <= c && c <= 'Z' {
        ((c as u8) + 32) as char
    } else {
        c
    }
}

/// Brings an ASCII letter to upper case.
pub fn to_upper(c: char) -> (r: char)
    ensures
        r == upper(c),
{
    if 'a' <= c && c <= 'z' {
        ((c as u8) - 32) as char
    } else {
        c
    }
}

// ── Between strings and character vectors ───────────────────────────

/// The characters of `s`.
pub fn chars_of(s: &str) -> (r: Vec<char>)
    ensures
        r@ == s@,
{
    let mut out: Vec<char> = Vec::new();
    for c in it: s.chars()
        invariant
            it.seq() == s@,
            out@ == s@.take(it.index() as int),
    {
        out.push(c);
        assert(out@ =~= s@.take(it.index() as int + 1));
    }
    assert(s@.take(s@.len() as int) =~= s@);
    out
}

/// The string with the given characters.
pub fn string_of(chars: &[char]) -> (r: String)
    ensures
        r@ == chars@,
{
    let mut out = String::new();
    let mut i: usize = 0;
    assert(out@ =~= chars@.take(0));
    while i < chars.len()
        invariant
            i <= chars@.len(),
            out@ == chars@.take(i as int),
        decreases chars@.len() - i,
    {
        out.push(chars[i]);
        i += 1;
        assert(out@ =~= chars@.take(i as int));
    }
    assert(chars@.take(i as int) =~= chars@);
    out
}

/// The string made of the characters from `from` up to `to`.
pub fn string_between(chars: &[char], from: usize, to: usize) -> (r: String)
    requires
        from <= to <= chars@.len(),
    ensures
        r@ == chars@.subrange(from as int, to as int),
{
    let mut out = String::new();
    let mut i: usize = from;
    assert(out@ =~= chars@.subrange(from as int, from as int));
    while i < to
        invariant
            from <= i <= to <= chars@.len(),
            out@ == chars@.subrange(from as int, i as int),
        decreases to - i,
    {
        out.push(chars[i]);
        i += 1;
        assert(out@ =~= chars@.subrange(from as int, i as int));
    }
    out
}

/// Says whether two strings have the same characters.
pub fn str_eq(a: &str, b: &str) -> (r: bool)
    ensures
        r == (a@ == b@),
{
    proof {
        vstd::utf8::encode_utf8_decode_utf8(a@);
        vstd::utf8::encode_utf8_decode_utf8(b@);
    }
    bytes_equal(a.as_bytes(), b.as_bytes())
}

/// A copy of `a` followed by `b`.
pub fn concat(a: &str, b: &str) -> (r: String)
    ensures
        r@ == a@ + b@,
{
    let mut r = String::from_str(a);
    r.append(b);
    r
}

// ── Searching ───────────────────────────────────────────────────────

/// The first position at or after `from` that holds `c`; the length of `s`
/// where there is none.
pub open spec fn first_from(s: Seq<char>, c: char, from: int) -> int
    decreases s.len() - from,
{
    if from >= s.len() {
        s.len() as int
    } else if s[from] == c {
        from
    } else {
        first_from(s, c, from + 1)
    }
}

/// The position just behind the last `c` among the first `to` characters; 0
/// where there is none.
pub open spec fn behind_last(s: Seq<char>, c: char, to: int) -> int
    decreases to,
{
    if to <= 0 {
        0
    } else if s[to - 1] == c {
        to
    } else {
        behind_last(s, c, to - 1)
    }
}

/// `first_from` is the least position that holds the character.
pub proof fn lemma_first_from(s: Seq<char>, c: char, from: int)
    requires
        0 <= from <= s.len(),
    ensures
        from <= first_from(s, c, from) <= s.len(),
        first_from(s, c, from) < s.len() ==> s[first_from(s, c, from)] == c,
        forall|k: int| from <= k < first_from(s, c, from) ==> s[k] != c,
    decreases s.len() - from,
{
    if from < s.len() && s[from] != c {
        lemma_first_from(s, c, from + 1);
    }
}

/// `behind_last` stands just behind the greatest position that holds the
/// character.
pub proof fn lemma_behind_last(s: Seq<char>, c: char, to: int)
    requires
        0 <= to <= s.len(),
    ensures
        0 <= behind_last(s, c, to) <= to,
        behind_last(s, c, to) > 0 ==> s[behind_last(s, c, to) - 1] == c,
        forall|k: int| behind_last(s, c, to) <= k < to ==> s[k] != c,
    decreases to,
{
    if to > 0 && s[to - 1] != c {
        lemma_behind_last(s, c, to - 1);
    }
}

/// Finds the first `c` at or after `from`.
pub fn find_from(s: &[char], c: char, from: usize) -> (r: usize)
    requires
        from <= s@.len(),
    ensures
        r as int == first_from(s@, c, from as int),
        from <= r <= s@.len(),
{
    let mut i: usize = from;
    while i < s.len()
        invariant
            from <= i <= s@.len(),
            first_from(s@, c, i as int) == first_from(s@, c, from as int),
        decreases s@.len() - i,
    {
        if s[i] == c {
            return i;
        }
        i += 1;
    }
    i
}

/// Finds the position behind the last `c`.
pub fn find_behind_last(s: &[char], c: char) -> (r: usize)
    ensures
        r as int == behind_last(s@, c, s@.len() as int),
        r <= s@.len(),
{
    let mut i: usize = s.len();
    while i > 0
        invariant
            i <= s@.len(),
            behind_last(s@, c, i as int) == behind_last(s@, c, s@.len() as int),
        decreases i,
    {
        if s[i - 1] == c {
            return i;
        }
        i -= 1;
    }
    0
}

/// `part` stands in `s` at `at`.
pub open spec fn stands_at(s: Seq<char>, part: Seq<char>, at: int) -> bool {
    0 <= at && at + part.len() <= s.len() && s.subrange(at, at + part.len()) == part
}

/// `s` begins with `part`.
pub open spec fn begins_with(s: Seq<char>, part: Seq<char>) -> bool {
    stands_at(s, part, 0)
}

/// `s` ends with `part`.
pub open spec fn ends_with(s: Seq<char>, part: Seq<char>) -> bool {
    stands_at(s, part, s.len() - part.len())
}

/// `part` stands somewhere in `s`.
pub open spec fn holds_text(s: Seq<char>, part: Seq<char>) -> bool {
    exists|at: int| stands_at(s, part, at)
}

/// Says whether `part` stands in `s` at `at`.
pub fn text_at(s: &[char], part: &[char], at: usize) -> (r: bool)
    ensures
        r == stands_at(s@, part@, at as int),
{
    if at > s.len() || part.len() > s.len() - at {
        return false;
    }
    let mut i: usize = 0;
    while i < part.len()
        invariant
            i <= part@.len(),
            at + part@.len() <= s@.len(),
            forall|k: int| 0 <= k < i ==> s@[at + k] == part@[k],
        decreases part@.len() - i,
    {
        assert(s.len() <= usize::MAX);
        if s[at + i] != part[i] {
            assert(s@.subrange(at as int, at + part@.len())[i as int] != part@[i as int]);
            return false;
        }
        i += 1;
    }
    assert(s@.subrange(at as int, at + part@.len()) =~= part@);
    true
}

/// Says whether `s` begins with `part`.
pub fn str_begins_with(s: &str, part: &str) -> (r: bool)
    ensures
        r == begins_with(s@, part@),
{
    text_at(&chars_of(s), &chars_of(part), 0)
}

/// Says whether `s` ends with `part`.
pub fn str_ends_with(s: &str, part: &str) -> (r: bool)
    ensures
        r == ends_with(s@, part@),
{
    let s = chars_of(s);
    let part = chars_of(part);
    if part.len() > s.len() {
        return false;
    }
    text_at(&s, &part, s.len() - part.len())
}

/// Says whether `part` stands somewhere in `s`.
pub fn str_holds(s: &str, part: &str) -> (r: bool)
    ensures
        r == holds_text(s@, part@),
{
    let hay = chars_of(s);
    let needle = chars_of(part);
    let mut at: usize = 0;
    while at < hay.len()
        invariant
            at <= hay@.len(),
            hay@ == s@,
            needle@ == part@,
            forall|k: int| 0 <= k < at ==> !stands_at(s@, part@, k),
        decreases hay@.len() - at,
    {
        if text_at(&hay, &needle, at) {
            return true;
        }
        at += 1;
    }
    text_at(&hay, &needle, at)
}

/// Says whether `s` holds the character `c`.
pub fn str_holds_char(s: &str, c: char) -> (r: bool)
    ensures
        r == s@.contains(c),
{
    let chars = chars_of(s);
    proof {
        lemma_first_from(s@, c, 0);
    }
    find_from(&chars, c, 0) < chars.len()
}

// ── Paths ───────────────────────────────────────────────────────────

/// What stands behind the last `/` of a path; the whole path where it has none.
pub open spec fn base_name(path: Seq<char>) -> Seq<char> {
    path.skip(behind_last(path, '/', path.len() as int))
}

/// What stands before the last `/` of a path, where it has one.
pub open spec fn parent_of(path: Seq<char>) -> Option<Seq<char>> {
    let cut = behind_last(path, '/', path.len() as int);
    if cut > 0 {
        Some(path.take(cut - 1))
    } else {
        None
    }
}

/// A path is its parent, a slash and its base name, and a base name holds no
/// slash.
pub proof fn law_parent_and_base(path: Seq<char>)
    ensures
        !base_name(path).contains('/'),
        match parent_of(path) {
            Some(p) => path == p + seq!['/'] + base_name(path),
            None => path == base_name(path),
        },
{
    lemma_behind_last(path, '/', path.len() as int);
    let cut = behind_last(path, '/', path.len() as int);
    assert forall|k: int| 0 <= k < base_name(path).len() implies base_name(path)[k] != '/' by {
        assert(path[cut + k] != '/');
    }
    if cut > 0 {
        assert(path =~= path.take(cut - 1) + seq!['/'] + base_name(path));
    } else {
        assert(path =~= base_name(path));
    }
}

/// The part of a path behind its last slash.
pub fn file_name(path: &str) -> (r: String)
    ensures
        r@ == base_name(path@),
{
    let chars = chars_of(path);
    let cut = find_behind_last(&chars, '/');
    let r = string_between(&chars, cut, chars.len());
    assert(r@ =~= base_name(path@));
    r
}

/// The part of a path before its last slash.
pub fn parent_path(path: &str) -> (r: Option<String>)
    ensures
        match r {
            Some(p) => parent_of(path@) == Some(p@),
            None => parent_of(path@) is None,
        },
{
    let chars = chars_of(path);
    let cut = find_behind_last(&chars, '/');
    if cut > 0 {
        let p = string_between(&chars, 0, cut - 1);
        assert(p@ =~= path@.take(cut - 1));
        Some(p)
    } else {
        None
    }
}

// ── Numbers ─────────────────────────────────────────────────────────

/// The digit for `d`, which is below ten.
pub open spec fn digit(d: nat) -> char {
    (48 + d) as char
}

/// `n` in decimal, without leading zeros.
pub open spec fn decimal(n: nat) -> Seq<char>
    decreases n,
{
    if n < 10 {
        seq![digit(n)]
    } else {
        decimal(n / 10).push(digit(n % 10))
    }
}

/// Writes `n` in decimal.
pub fn decimal_text(n: u64) -> (r: String)
    ensures
        r@ == decimal(n as nat),
    decreases n,
{
    let d = (48 + (n % 10) as u8) as char;
    let mut r = if n < 10 {
        String::new()
    } else {
        decimal_text(n / 10)
    };
    r.push(d);
    assert(r@ =~= decimal(n as nat));
    r
}

/// `c` is a decimal digit.
pub open spec fn is_digit(c: char) -> bool {
    '0' <= c <= '9'
}

/// The number that a run of digits stands for.
pub open spec fn digits_value(s: Seq<char>) -> nat
    decreases s.len(),
{
    if s.len() == 0 {
        0
    } else {
        10 * digits_value(s.drop_last()) + (s.last() as nat - 48) as nat
    }
}

/// The digits of a written number: what is left behind a leading `+`.
pub open spec fn number_digits(s: Seq<char>) -> Seq<char> {
    if s.len() > 0 && s[0] == '+' {
        s.skip(1)
    } else {
        s
    }
}

/// The number that `s` stands for, where `s` is an optional `+` and then one or
/// more digits, and the number is at most `max`.
pub open spec fn number_in(s: Seq<char>, max: nat) -> Option<nat> {
    let d = number_digits(s);
    if d.len() > 0 && (forall|i: int| 0 <= i < d.len() ==> is_digit(d[i])) && digits_value(d)
        <= max {
        Some(digits_value(d))
    } else {
        None
    }
}

proof fn lemma_digits_value_grows(s: Seq<char>, k: int)
    requires
        0 <= k <= s.len(),
        forall|i: int| 0 <= i < s.len() ==> is_digit(s[i]),
    ensures
        digits_value(s.take(k)) <= digits_value(s),
    decreases s.len(),
{
    if k == s.len() {
        assert(s.take(k) =~= s);
    } else {
        lemma_digits_value_grows(s.drop_last(), k);
        assert(s.drop_last().take(k) =~= s.take(k));
    }
}

/// Reads a decimal number that is at most `max`.
pub fn parse_number(text: &str, max: u32) -> (r: Option<u32>)
    ensures
        match r {
            Some(v) => number_in(text@, max as nat) == Some(v as nat),
            None => number_in(text@, max as nat) is None,
        },
{
    let chars = chars_of(text);
    let start: usize = if chars.len() > 0 && chars[0] == '+' {
        1
    } else {
        0
    };
    let ghost d = number_digits(text@);
    assert(d =~= text@.skip(start as int));
    if start == chars.len() {
        return None;
    }
    let mut value: u32 = 0;
    let mut i: usize = start;
    while i < chars.len()
        invariant
            start <= i <= chars@.len(),
            start <= 1,
            chars@ == text@,
            d == number_digits(text@),
            d == chars@.skip(start as int),
            forall|k: int| 0 <= k < i - start ==> is_digit(d[k]),
            value as nat == digits_value(d.take(i - start)),
            value <= max,
        decreases chars@.len() - i,
    {
        let c = chars[i];
        assert(d[i - start] == c);
        if !('0' <= c && c <= '9') {
            return None;
        }
        assert(d.take(i - start + 1).drop_last() =~= d.take(i - start));
        let next: u64 = 10 * (value as u64) + ((c as u8) - 48) as u64;
        assert(next as nat == digits_value(d.take(i - start + 1)));
        if next > max as u64 {
            proof {
                if forall|k: int| 0 <= k < d.len() ==> is_digit(d[k]) {
                    lemma_digits_value_grows(d, i - start + 1);
                }
            }
            return None;
        }
        value = next as u32;
        i += 1;
    }
    assert(d.take(i - start) =~= d);
    Some(value)
}

proof fn lemma_decimal_is_digits(n: nat)
    ensures
        decimal(n).len() > 0,
        forall|i: int| 0 <= i < decimal(n).len() ==> is_digit(decimal(n)[i]),
        digits_value(decimal(n)) == n,
    decreases n,
{
    if n < 10 {
        assert(decimal(n).drop_last() =~= Seq::<char>::empty());
        assert(digits_value(Seq::<char>::empty()) == 0);
        assert(decimal(n).last() == digit(n));
    } else {
        lemma_decimal_is_digits(n / 10);
        assert(decimal(n).drop_last() =~= decimal(n / 10));
        assert(decimal(n).last() == digit(n % 10));
    }
}

/// A number that was written in decimal reads back as itself.
pub proof fn law_decimal_round_trip(n: nat, max: nat)
    requires
        n <= max,
    ensures
        number_in(decimal(n), max) == Some(n),
{
    lemma_decimal_is_digits(n);
    assert(is_digit(decimal(n)[0]));
}

// ── Lists and options ───────────────────────────────────────────────

/// The texts of a list of strings.
pub open spec fn texts(list: Seq<String>) -> Seq<Seq<char>> {
    Seq::new(list.len(), |i: int| list[i]@)
}

/// The text in an optional string.
pub open spec fn text_of(s: Option<&str>) -> Option<Seq<char>> {
    match s {
        Some(t) => Some(t@),
        None => None,
    }
}

/// Adds a text to a list.
pub fn push_text(list: &mut Vec<String>, text: &str)
    ensures
        texts(final(list)@) == texts(old(list)@).push(text@),
{
    let s = String::from_str(text);
    list.push(s);
    assert(texts(list@) =~= texts(old(list)@).push(text@));
}

/// The text in an optional owned string.
pub open spec fn owned_text(s: Option<String>) -> Option<Seq<char>> {
    match s {
        Some(t) => Some(t@),
        None => None,
    }
}

/// Copies an optional text.
pub fn own_text(s: Option<&str>) -> (r: Option<String>)
    ensures
        owned_text(r) == text_of(s),
{
    match s {
        Some(t) => Some(String::from_str(t)),
        None => None,
    }
}

/// Two characters are the same in lower case exactly where they are the same, or
/// the two forms of one letter from A to Z. Upper case goes the other way.
pub proof fn law_case_is_ascii(a: char, b: char)
    ensures
        lower(a) == lower(b) <==> {
            ||| a == b
            ||| 'A' <= a <= 'Z' && b as int == a as int + 32
            ||| 'A' <= b <= 'Z' && a as int == b as int + 32
        },
        upper(a) == upper(b) <==> lower(a) == lower(b),
        !('A' <= lower(a) <= 'Z'),
        !('a' <= upper(a) <= 'z'),
        lower(upper(a)) == lower(a),
        upper(lower(a)) == upper(a),
{
}

/// The value of a text of digits goes by its last digit and the value of what
/// stands before it.
pub proof fn law_digits_count_by_ten(s: Seq<char>, c: char)
    requires
        '0' <= c <= '9',
    ensures
        digits_value(s.push(c)) == 10 * digits_value(s) + (c as int - '0' as int),
        digits_value(Seq::empty()) == 0,
{
    assert(s.push(c).drop_last() =~= s);
}

} // verus!
