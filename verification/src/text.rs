//! Text: views of strings as character sequences, decimal numbers, prefixes
//! and separators.

use vstd::prelude::*;
use vstd::string::*;
use vstd::utf8::{decode_utf8, encode_utf8_decode_utf8, valid_utf8};

verus! {

/// `String::push`: the string gains the character at its end.
pub assume_specification[ std::string::String::push ](s: &mut std::string::String, ch: char)
    ensures
        final(s)@ == old(s)@.push(ch),
;

/// `std::str::from_utf8`: the text a byte slice encodes, or nothing when the
/// bytes are not UTF-8. The copy into an owned string keeps the characters.
#[verifier::external_body]
pub(crate) fn utf8_text(bytes: &[u8]) -> (r: Option<String>)
    ensures
        r is Some <==> valid_utf8(bytes@),
        r matches Some(s) ==> s@ == decode_utf8(bytes@),
{
    std::str::from_utf8(bytes).ok().map(String::from)
}

/// The characters of a string.
pub fn chars_of(s: &str) -> (v: Vec<char>)
    ensures
        v@ == s@,
{
    let mut v: Vec<char> = Vec::new();
    for c in it: s.chars()
        invariant
            v@ == it.seq().take(it.index() as int),
            it.seq() == s@,
    {
        v.push(c);
    }
    v
}

/// The string made of the characters `from..to`.
pub fn string_of(chars: &[char], from: usize, to: usize) -> (s: String)
    requires
        from <= to <= chars@.len(),
    ensures
        s@ == chars@.subrange(from as int, to as int),
{
    let mut s: String = String::new();
    let mut i: usize = from;
    while i < to
        invariant
            from <= i <= to <= chars@.len(),
            s@ == chars@.subrange(from as int, i as int),
        decreases to - i,
    {
        s.push(chars[i]);
        i = i + 1;
        assert(s@ =~= chars@.subrange(from as int, i as int));
    }
    s
}

/// Whether two strings hold the same characters.
pub fn str_eq(a: &str, b: &str) -> (r: bool)
    ensures
        r == (a@ == b@),
{
    let x: &[u8] = a.as_bytes();
    let y: &[u8] = b.as_bytes();
    let r: bool = bytes_eq(x, y);
    proof {
        encode_utf8_decode_utf8(a@);
        encode_utf8_decode_utf8(b@);
    }
    r
}

/// Whether two byte slices are equal.
pub fn bytes_eq(x: &[u8], y: &[u8]) -> (r: bool)
    ensures
        r == (x@ == y@),
{
    if x.len() != y.len() {
        return false;
    }
    let mut i: usize = 0;
    while i < x.len()
        invariant
            i <= x@.len(),
            x@.len() == y@.len(),
            forall|k: int| 0 <= k < i ==> x@[k] == y@[k],
        decreases x@.len() - i,
    {
        if x[i] != y[i] {
            return false;
        }
        i = i + 1;
    }
    assert(x@ =~= y@);
    true
}

/// Whether `chars` begins with `prefix`.
pub open spec fn has_prefix(chars: Seq<char>, prefix: Seq<char>) -> bool {
    prefix.len() <= chars.len() && chars.subrange(0, prefix.len() as int) == prefix
}

/// Whether `chars` begins with `prefix`.
pub fn starts_with(chars: &[char], prefix: &[char]) -> (r: bool)
    ensures
        r == has_prefix(chars@, prefix@),
{
    if prefix.len() > chars.len() {
        return false;
    }
    let mut i: usize = 0;
    while i < prefix.len()
        invariant
            i <= prefix@.len() <= chars@.len(),
            forall|k: int| 0 <= k < i ==> chars@[k] == prefix@[k],
        decreases prefix@.len() - i,
    {
        if chars[i] != prefix[i] {
            assert(chars@.subrange(0, prefix@.len() as int)[i as int] != prefix@[i as int]);
            return false;
        }
        i = i + 1;
    }
    assert(chars@.subrange(0, prefix@.len() as int) =~= prefix@);
    true
}

/// The first position of `c` at or after `from`; the length when there is none.
pub open spec fn find_char(chars: Seq<char>, c: char, from: int) -> int
    decreases chars.len() - from,
{
    if from < 0 || from >= chars.len() {
        chars.len() as int
    } else if chars[from] == c {
        from
    } else {
        find_char(chars, c, from + 1)
    }
}

/// What [`find_char`] gives: nothing before it matches, and it matches unless
/// it is the end.
pub proof fn lemma_find_char(chars: Seq<char>, c: char, from: int)
    requires
        0 <= from <= chars.len(),
    ensures
        from <= find_char(chars, c, from) <= chars.len(),
        find_char(chars, c, from) < chars.len() ==> chars[find_char(chars, c, from)] == c,
        forall|k: int| from <= k < find_char(chars, c, from) ==> chars[k] != c,
    decreases chars.len() - from,
{
    if from < chars.len() && chars[from] != c {
        lemma_find_char(chars, c, from + 1);
    }
}

/// The first position of `c` at or after `from`; the length when there is none.
pub fn position(chars: &[char], c: char, from: usize) -> (r: usize)
    requires
        from <= chars@.len(),
    ensures
        r == find_char(chars@, c, from as int),
        from <= r <= chars@.len(),
{
    let mut i: usize = from;
    while i < chars.len()
        invariant
            from <= i <= chars@.len(),
            find_char(chars@, c, from as int) == find_char(chars@, c, i as int),
        decreases chars@.len() - i,
    {
        if chars[i] == c {
            return i;
        }
        i = i + 1;
    }
    i
}

/// The decimal digit `d`.
pub open spec fn digit_char(d: int) -> char {
    ('0' as int + d) as char
}

/// `n` written in decimal, without leading zeros.
pub open spec fn decimal(n: nat) -> Seq<char>
    decreases n,
{
    if n < 10 {
        seq![digit_char(n as int)]
    } else {
        decimal(n / 10).push(digit_char((n % 10) as int))
    }
}

/// Append `n` in decimal.
pub fn push_decimal(s: &mut String, n: u64)
    ensures
        final(s)@ == old(s)@ + decimal(n as nat),
    decreases n,
{
    if n >= 10 {
        push_decimal(s, n / 10);
    }
    let ghost mid = s@;
    s.push(digit((n % 10) as u8));
    assert(s@ =~= old(s)@ + decimal(n as nat));
}

/// The decimal digit `d`.
pub fn digit(d: u8) -> (c: char)
    requires
        d < 10,
    ensures
        c == digit_char(d as int),
{
    (48 + d) as char
}

/// `n` in decimal.
pub fn decimal_string(n: u64) -> (s: String)
    ensures
        s@ == decimal(n as nat),
{
    let mut s: String = String::new();
    push_decimal(&mut s, n);
    assert(s@ =~= decimal(n as nat));
    s
}

/// `n` written in decimal, with a sign where it is below zero.
pub open spec fn signed_decimal(n: int) -> Seq<char> {
    if n < 0 {
        "-"@ + decimal((-n) as nat)
    } else {
        decimal(n as nat)
    }
}

/// `n` in decimal, with its sign.
pub fn signed_string(n: i32) -> (s: String)
    ensures
        s@ == signed_decimal(n as int),
{
    if n < 0 {
        "-".to_owned().concat(decimal_string((-(n as i64)) as u64).as_str())
    } else {
        decimal_string(n as u64)
    }
}

/// Whether `c` is one of `0` to `9`.
pub open spec fn is_digit(c: char) -> bool {
    '0' <= c <= '9'
}

/// The number a run of digits stands for.
pub open spec fn digits_value(s: Seq<char>) -> nat
    decreases s.len(),
{
    if s.len() == 0 {
        0
    } else {
        (digits_value(s.drop_last()) * 10 + (s.last() as int - '0' as int)) as nat
    }
}

/// The digits of an unsigned number: one leading `+` is allowed and skipped.
pub open spec fn unsigned_digits(s: Seq<char>) -> Seq<char> {
    if s.len() > 0 && s[0] == '+' {
        s.subrange(1, s.len() as int)
    } else {
        s
    }
}

/// Whether `s` is an unsigned decimal number no larger than `max`.
pub open spec fn is_unsigned(s: Seq<char>, max: nat) -> bool {
    let d = unsigned_digits(s);
    d.len() > 0 && (forall|i: int| 0 <= i < d.len() ==> is_digit(#[trigger] d[i])) && digits_value(d)
        <= max
}

/// A prefix of a run of digits stands for no larger a number.
proof fn lemma_digits_grow(s: Seq<char>, k: int)
    requires
        0 <= k <= s.len(),
        forall|i: int| 0 <= i < s.len() ==> is_digit(#[trigger] s[i]),
    ensures
        digits_value(s.subrange(0, k)) <= digits_value(s),
    decreases s.len(),
{
    if k == s.len() {
        assert(s.subrange(0, k) =~= s);
    } else {
        let t = s.drop_last();
        assert(t.subrange(0, k) =~= s.subrange(0, k));
        lemma_digits_grow(t, k);
    }
}

/// Read an unsigned decimal number no larger than `max` from `chars`.
pub fn parse_unsigned(chars: &[char], max: u64) -> (r: Option<u64>)
    requires
        max <= 0xffff_ffff,
    ensures
        r is Some <==> is_unsigned(chars@, max as nat),
        r matches Some(v) ==> v == digits_value(unsigned_digits(chars@)),
{
    let start: usize = if chars.len() > 0 && chars[0] == '+' {
        1
    } else {
        0
    };
    let ghost d = unsigned_digits(chars@);
    assert(d =~= chars@.subrange(start as int, chars@.len() as int));
    if chars.len() == start {
        return None;
    }
    let mut v: u64 = 0;
    let mut i: usize = start;
    while i < chars.len()
        invariant
            start <= i <= chars@.len(),
            d == chars@.subrange(start as int, chars@.len() as int),
            d == unsigned_digits(chars@),
            max <= 0xffff_ffff,
            v <= max,
            v == digits_value(d.subrange(0, i - start)),
            forall|k: int| 0 <= k < i - start ==> is_digit(#[trigger] d[k]),
        decreases chars@.len() - i,
    {
        let c: char = chars[i];
        assert(d[i - start] == c);
        if c < '0' || c > '9' {
            return None;
        }
        let x: u64 = (c as u64) - 48;
        v = v * 10 + x;
        proof {
            let n = d.subrange(0, i + 1 - start);
            assert(n.drop_last() =~= d.subrange(0, i - start));
            assert(n.last() == c);
        }
        if v > max {
            proof {
                if is_unsigned(chars@, max as nat) {
                    lemma_digits_grow(d, i + 1 - start);
                }
            }
            return None;
        }
        i = i + 1;
    }
    assert(d.subrange(0, i - start) =~= d);
    Some(v)
}

/// The number a decimal form stands for is the number it was made from.
pub proof fn law_decimal_reads_back(n: nat)
    ensures
        decimal(n).len() > 0,
        forall|i: int| 0 <= i < decimal(n).len() ==> is_digit(#[trigger] decimal(n)[i]),
        digits_value(decimal(n)) == n,
    decreases n,
{
    reveal_with_fuel(digits_value, 2);
    if n >= 10 {
        law_decimal_reads_back(n / 10);
        let s = decimal(n);
        assert(s.drop_last() =~= decimal(n / 10));
        assert forall|i: int| 0 <= i < s.len() implies is_digit(#[trigger] s[i]) by {
            if i < s.len() - 1 {
                assert(s[i] == decimal(n / 10)[i]);
            }
        }
    } else {
        assert(decimal(n).drop_last() =~= Seq::<char>::empty());
    }
}

/// Whether `c` is white space: the characters with Unicode's `White_Space`
/// property.
pub open spec fn is_space(c: char) -> bool {
    let u = c as u32;
    ||| 0x09 <= u <= 0x0d
    ||| u == 0x20
    ||| u == 0x85
    ||| u == 0xa0
    ||| u == 0x1680
    ||| 0x2000 <= u <= 0x200a
    ||| u == 0x2028
    ||| u == 0x2029
    ||| u == 0x202f
    ||| u == 0x205f
    ||| u == 0x3000
}

/// Whether `c` is white space.
pub fn space(c: char) -> (r: bool)
    ensures
        r == is_space(c),
{
    let u: u32 = c as u32;
    (0x09 <= u && u <= 0x0d) || u == 0x20 || u == 0x85 || u == 0xa0 || u == 0x1680 || (0x2000 <= u
        && u <= 0x200a) || u == 0x2028 || u == 0x2029 || u == 0x202f || u == 0x205f || u == 0x3000
}

/// Where the white space that starts at `i` ends.
pub open spec fn skip_space(s: Seq<char>, i: int) -> int
    decreases s.len() - i,
{
    if 0 <= i < s.len() && is_space(s[i]) {
        skip_space(s, i + 1)
    } else {
        i
    }
}

/// Where the word that starts at `i` ends.
pub open spec fn skip_word(s: Seq<char>, i: int) -> int
    decreases s.len() - i,
{
    if 0 <= i < s.len() && !is_space(s[i]) {
        skip_word(s, i + 1)
    } else {
        i
    }
}

/// Where the white space at the end of `s[from..to]` begins.
pub open spec fn drop_space(s: Seq<char>, from: int, to: int) -> int
    decreases to - from,
{
    if from < to && is_space(s[to - 1]) {
        drop_space(s, from, to - 1)
    } else {
        to
    }
}

/// `s` without the white space at its ends.
pub open spec fn trimmed(s: Seq<char>) -> Seq<char> {
    let from = skip_space(s, 0);
    s.subrange(from, drop_space(s, from, s.len() as int))
}

/// The characters `from..to`.
pub fn sub_chars(chars: &[char], from: usize, to: usize) -> (v: Vec<char>)
    requires
        from <= to <= chars@.len(),
    ensures
        v@ == chars@.subrange(from as int, to as int),
{
    let mut v: Vec<char> = Vec::new();
    let mut i: usize = from;
    while i < to
        invariant
            from <= i <= to <= chars@.len(),
            v@ == chars@.subrange(from as int, i as int),
        decreases to - i,
    {
        v.push(chars[i]);
        i = i + 1;
        assert(v@ =~= chars@.subrange(from as int, i as int));
    }
    v
}

/// `chars` without the white space at its ends.
pub fn trim_space(chars: &[char]) -> (v: Vec<char>)
    ensures
        v@ == trimmed(chars@),
{
    let n: usize = chars.len();
    let mut from: usize = 0;
    while from < n && space(chars[from])
        invariant
            from <= n == chars@.len(),
            skip_space(chars@, 0) == skip_space(chars@, from as int),
        decreases n - from,
    {
        from = from + 1;
    }
    let mut to: usize = n;
    while from < to && space(chars[to - 1])
        invariant
            from <= to <= n == chars@.len(),
            drop_space(chars@, from as int, n as int) == drop_space(
                chars@,
                from as int,
                to as int,
            ),
        decreases to,
    {
        to = to - 1;
    }
    sub_chars(chars, from, to)
}

/// The words of `s` from `i` on, separated by white space.
pub open spec fn words_from(s: Seq<char>, i: int) -> Seq<Seq<char>>
    decreases s.len() - i,
{
    if i < 0 || i >= s.len() {
        Seq::empty()
    } else if is_space(s[i]) {
        words_from(s, i + 1)
    } else {
        let end = skip_word(s, i);
        if end <= i || end > s.len() {
            Seq::empty()
        } else {
            seq![s.subrange(i, end)] + words_from(s, end)
        }
    }
}

/// A word ends behind its first character.
proof fn lemma_word(s: Seq<char>, i: int)
    requires
        0 <= i <= s.len(),
    ensures
        i <= skip_word(s, i) <= s.len(),
        i < s.len() && !is_space(s[i]) ==> i < skip_word(s, i),
    decreases s.len() - i,
{
    if i < s.len() && !is_space(s[i]) {
        lemma_word(s, i + 1);
    }
}

/// The character sequences of a vector.
pub open spec fn char_views(v: Seq<Vec<char>>) -> Seq<Seq<char>> {
    Seq::new(v.len(), |i: int| v[i]@)
}

/// The words of a text, separated by white space.
pub fn words(chars: &[char]) -> (v: Vec<Vec<char>>)
    ensures
        char_views(v@) == words_from(chars@, 0),
{
    let n: usize = chars.len();
    let mut v: Vec<Vec<char>> = Vec::new();
    let mut i: usize = 0;
    assert(char_views(v@) + words_from(chars@, 0) =~= words_from(chars@, 0));
    while i < n
        invariant
            i <= n == chars@.len(),
            char_views(v@) + words_from(chars@, i as int) == words_from(chars@, 0),
        decreases n - i,
    {
        if space(chars[i]) {
            i = i + 1;
        } else {
            let mut end: usize = i;
            proof {
                lemma_word(chars@, i as int);
            }
            while end < n && !space(chars[end])
                invariant
                    i <= end <= n == chars@.len(),
                    skip_word(chars@, i as int) == skip_word(chars@, end as int),
                decreases n - end,
            {
                end = end + 1;
            }
            let ghost before = char_views(v@);
            v.push(sub_chars(chars, i, end));
            proof {
                let word = chars@.subrange(i as int, end as int);
                assert(char_views(v@) =~= before.push(word));
                assert(before + (seq![word] + words_from(chars@, end as int)) =~= char_views(v@)
                    + words_from(chars@, end as int));
            }
            i = end;
        }
    }
    assert(char_views(v@) + Seq::<Seq<char>>::empty() =~= char_views(v@));
    v
}

/// A line's text: a carriage return at its end does not belong to it.
pub open spec fn line_text(s: Seq<char>) -> Seq<char> {
    if s.len() > 0 && s.last() == '\r' {
        s.drop_last()
    } else {
        s
    }
}

/// The lines of `s` from `i` on. A line feed ends a line; what is behind the
/// last one is a line when there is anything, and keeps its carriage return.
pub open spec fn lines_from(s: Seq<char>, i: int) -> Seq<Seq<char>>
    decreases s.len() - i,
{
    if i < 0 || i >= s.len() {
        Seq::empty()
    } else {
        let end = find_char(s, '\n', i);
        if end < i {
            Seq::empty()
        } else if end >= s.len() {
            seq![s.subrange(i, s.len() as int)]
        } else {
            seq![line_text(s.subrange(i, end))] + lines_from(s, end + 1)
        }
    }
}

/// The lines of a text.
pub fn lines(chars: &[char]) -> (v: Vec<Vec<char>>)
    ensures
        char_views(v@) == lines_from(chars@, 0),
{
    let n: usize = chars.len();
    let mut v: Vec<Vec<char>> = Vec::new();
    let mut i: usize = 0;
    assert(char_views(v@) + lines_from(chars@, 0) =~= lines_from(chars@, 0));
    while i < n
        invariant
            i <= n == chars@.len(),
            char_views(v@) + lines_from(chars@, i as int) == lines_from(chars@, 0),
        decreases n - i,
    {
        let end: usize = position(chars, '\n', i);
        let ghost before = char_views(v@);
        if end >= n {
            v.push(sub_chars(chars, i, n));
            proof {
                let line = chars@.subrange(i as int, n as int);
                assert(char_views(v@) =~= before.push(line));
                assert(before + seq![line] =~= char_views(v@));
                assert(char_views(v@) + lines_from(chars@, n as int) =~= char_views(v@));
            }
            i = n;
        } else {
            let stop: usize = if end > i && chars[end - 1] == '\r' {
                end - 1
            } else {
                end
            };
            v.push(sub_chars(chars, i, stop));
            proof {
                let line = line_text(chars@.subrange(i as int, end as int));
                assert(chars@.subrange(i as int, stop as int) =~= line);
                assert(char_views(v@) =~= before.push(line));
                assert(before + (seq![line] + lines_from(chars@, end + 1)) =~= char_views(v@)
                    + lines_from(chars@, end + 1));
            }
            i = end + 1;
        }
    }
    assert(char_views(v@) + Seq::<Seq<char>>::empty() =~= char_views(v@));
    v
}

/// Whether two character sequences are equal.
pub fn chars_eq(x: &[char], y: &[char]) -> (r: bool)
    ensures
        r == (x@ == y@),
{
    if x.len() != y.len() {
        return false;
    }
    let mut i: usize = 0;
    while i < x.len()
        invariant
            i <= x@.len(),
            x@.len() == y@.len(),
            forall|k: int| 0 <= k < i ==> x@[k] == y@[k],
        decreases x@.len() - i,
    {
        if x[i] != y[i] {
            return false;
        }
        i = i + 1;
    }
    assert(x@ =~= y@);
    true
}

/// Whether `needle` stands somewhere in `s`.
pub open spec fn contains_text(s: Seq<char>, needle: Seq<char>) -> bool {
    exists|i: int|
        0 <= i && i + needle.len() <= s.len() && #[trigger] s.subrange(i, i + needle.len())
            == needle
}

/// Whether `needle` stands somewhere in `s`.
pub fn contains(s: &str, needle: &str) -> (r: bool)
    ensures
        r == contains_text(s@, needle@),
{
    let chars: Vec<char> = chars_of(s);
    let want: Vec<char> = chars_of(needle);
    let total: usize = chars.len();
    if total < want.len() {
        return false;
    }
    let last: usize = total - want.len();
    let mut i: usize = 0;
    loop
        invariant
            i <= last,
            last + want@.len() == total == chars@.len(),
            chars@ == s@,
            want@ == needle@,
            forall|k: int| 0 <= k < i ==> #[trigger] s@.subrange(k, k + needle@.len()) != needle@,
        decreases last - i,
    {
        if chars_eq(sub_chars(chars.as_slice(), i, i + want.len()).as_slice(), want.as_slice()) {
            assert(s@.subrange(i as int, i + needle@.len()) == needle@);
            return true;
        }
        if i == last {
            assert forall|k: int| 0 <= k && k + needle@.len() <= s@.len() implies
                #[trigger] s@.subrange(k, k + needle@.len()) != needle@ by {}
            return false;
        }
        i = i + 1;
    }
}

/// The order of texts: that of their first differing characters, from `i` on;
/// a beginning comes before what continues it.
pub open spec fn comes_before(a: Seq<char>, b: Seq<char>, i: int) -> bool
    decreases b.len() - i,
{
    if i < 0 || i >= b.len() {
        false
    } else if i >= a.len() {
        true
    } else if a[i] == b[i] {
        comes_before(a, b, i + 1)
    } else {
        a[i] < b[i]
    }
}

/// Whether texts stand in strictly rising order.
pub open spec fn rising(v: Seq<Seq<char>>) -> bool {
    forall|i: int, j: int| 0 <= i < j < v.len() ==> comes_before(#[trigger] v[i], #[trigger] v[j], 0)
}

/// The texts of strings.
pub open spec fn string_views(v: Seq<String>) -> Seq<Seq<char>> {
    Seq::new(v.len(), |i: int| v[i]@)
}

/// Whether `a` comes before `b`.
pub fn before(a: &str, b: &str) -> (r: bool)
    ensures
        r == comes_before(a@, b@, 0),
{
    let x: Vec<char> = chars_of(a);
    let y: Vec<char> = chars_of(b);
    let xn: usize = x.len();
    let yn: usize = y.len();
    let mut i: usize = 0;
    while i < yn
        invariant
            i <= yn == y@.len(),
            xn == x@.len(),
            x@ == a@,
            y@ == b@,
            comes_before(x@, y@, 0) == comes_before(x@, y@, i as int),
        decreases yn - i,
    {
        if i >= xn {
            return true;
        }
        if x[i] != y[i] {
            return x[i] < y[i];
        }
        i = i + 1;
    }
    false
}

/// Of two different texts one comes before the other.
pub proof fn lemma_before_total(a: Seq<char>, b: Seq<char>, i: int)
    requires
        0 <= i,
        i <= a.len(),
        i <= b.len(),
        forall|k: int| 0 <= k < i ==> a[k] == b[k],
    ensures
        a != b ==> comes_before(a, b, i) || comes_before(b, a, i),
    decreases b.len() - i,
{
    if i < a.len() && i < b.len() {
        if a[i] == b[i] {
            lemma_before_total(a, b, i + 1);
        }
    } else if a.len() == b.len() {
        assert(a =~= b);
    }
}

/// What comes before what comes before comes before.
pub proof fn lemma_before_transitive(a: Seq<char>, b: Seq<char>, c: Seq<char>, i: int)
    requires
        0 <= i,
        comes_before(a, b, i),
        comes_before(b, c, i),
    ensures
        comes_before(a, c, i),
    decreases b.len() - i,
{
    if i < a.len() && i < b.len() && i < c.len() && a[i] == b[i] && b[i] == c[i] {
        lemma_before_transitive(a, b, c, i + 1);
    }
}

/// Putting a new text where the order asks keeps the order.
pub proof fn lemma_insert_rising(v: Seq<Seq<char>>, at: int, x: Seq<char>)
    requires
        rising(v),
        0 <= at <= v.len(),
        !v.contains(x),
        forall|k: int| 0 <= k < at ==> comes_before(#[trigger] v[k], x, 0),
        at < v.len() ==> !comes_before(v[at], x, 0),
    ensures
        rising(v.insert(at, x)),
{
    let w = v.insert(at, x);
    if at < v.len() {
        assert(v.contains(v[at]));
        assert(v[at] != x);
        lemma_before_total(v[at], x, 0);
        assert(comes_before(x, v[at], 0));
    }
    assert forall|i: int, j: int| 0 <= i < j < w.len() implies comes_before(
        #[trigger] w[i],
        #[trigger] w[j],
        0,
    ) by {
        if i == at {
            if j - 1 > at {
                assert(comes_before(v[at], v[j - 1], 0));
                lemma_before_transitive(x, v[at], v[j - 1], 0);
            }
        } else if j == at {
            assert(comes_before(v[i], x, 0));
        }
    }
}

/// Nothing comes before itself.
pub proof fn lemma_before_irreflexive(a: Seq<char>, i: int)
    requires
        0 <= i,
    ensures
        !comes_before(a, a, i),
    decreases a.len() - i,
{
    if i < a.len() {
        lemma_before_irreflexive(a, i + 1);
    }
}

/// Texts in rising order are known by which texts they are.
pub proof fn lemma_rising_unique(a: Seq<Seq<char>>, b: Seq<Seq<char>>)
    requires
        rising(a),
        rising(b),
        forall|x: Seq<char>| a.contains(x) <==> b.contains(x),
    ensures
        a == b,
    decreases a.len(),
{
    if a.len() == 0 {
        if b.len() > 0 {
            assert(b.contains(b[0]));
            assert(a.contains(b[0]));
        }
        assert(a =~= b);
    } else {
        let x = a.last();
        assert(a.contains(x));
        let j = choose|j: int| 0 <= j < b.len() && b[j] == x;
        let y = b.last();
        assert(b.contains(y));
        let i = choose|i: int| 0 <= i < a.len() && a[i] == y;
        if x != y {
            assert(comes_before(b[j], b[b.len() - 1], 0));
            assert(comes_before(a[i], a[a.len() - 1], 0));
            lemma_before_transitive(x, y, x, 0);
            lemma_before_irreflexive(x, 0);
        }
        let c = a.drop_last();
        let d = b.drop_last();
        assert forall|z: Seq<char>| c.contains(z) <==> d.contains(z) by {
            if c.contains(z) {
                let k = choose|k: int| 0 <= k < c.len() && c[k] == z;
                assert(comes_before(a[k], a[a.len() - 1], 0));
                lemma_before_irreflexive(x, 0);
                assert(a.contains(a[k]));
                let l = choose|l: int| 0 <= l < b.len() && b[l] == z;
                assert(d[l] == z);
            }
            if d.contains(z) {
                let k = choose|k: int| 0 <= k < d.len() && d[k] == z;
                assert(comes_before(b[k], b[b.len() - 1], 0));
                lemma_before_irreflexive(y, 0);
                assert(b.contains(b[k]));
                let l = choose|l: int| 0 <= l < a.len() && a[l] == z;
                assert(c[l] == z);
            }
        }
        lemma_rising_unique(c, d);
        assert(a =~= c.push(x));
        assert(b =~= d.push(y));
    }
}

} // verus!
