//! Text primitives: the string operations the rest of the crate is built on,
//! each with its meaning stated over sequences of characters.

use vstd::prelude::*;
use vstd::string::*;
use vstd::utf8::*;

verus! {

/// `String::push` appends one character.
pub assume_specification[ String::push ](s: &mut String, c: char)
    ensures
        final(s)@ == old(s)@.push(c),
;

/// The characters of `s` in order.
pub fn chars_of(s: &str) -> (out: Vec<char>)
    ensures
        out@ == s@,
{
    let mut out: Vec<char> = Vec::new();
    for c in it: s.chars()
        invariant
            out@ == it.seq().take(it.index() as int),
            it.seq() == s@,
    {
        out.push(c);
    }
    out
}

/// The string holding `chars[from..to]`.
pub fn string_of(chars: &Vec<char>, from: usize, to: usize) -> (out: String)
    requires
        from <= to <= chars@.len(),
    ensures
        out@ == chars@.subrange(from as int, to as int),
{
    let mut out = String::new();
    let mut i: usize = from;
    while i < to
        invariant
            from <= i <= to <= chars@.len(),
            out@ == chars@.subrange(from as int, i as int),
        decreases to - i,
    {
        out.push(chars[i]);
        i += 1;
        assert(out@ =~= chars@.subrange(from as int, i as int));
    }
    out
}

/// Whether two strings hold the same characters.
pub fn str_eq(a: &str, b: &str) -> (r: bool)
    ensures
        r == (a@ == b@),
{
    let x = a.as_bytes();
    let y = b.as_bytes();
    proof {
        encode_utf8_decode_utf8(a@);
        encode_utf8_decode_utf8(b@);
    }
    if x.len() != y.len() {
        return false;
    }
    let mut i: usize = 0;
    while i < x.len()
        invariant
            i <= x@.len(),
            x@.len() == y@.len(),
            x@ == encode_utf8(a@),
            y@ == encode_utf8(b@),
            forall|k: int| 0 <= k < i ==> x@[k] == y@[k],
        decreases x@.len() - i,
    {
        if x[i] != y[i] {
            return false;
        }
        i += 1;
    }
    assert(x@ =~= y@);
    true
}

/// The decimal digit `d`, as a character.
pub open spec fn digit(d: nat) -> char {
    (48 + d) as char
}

/// `n` in decimal, without leading zeros.
pub open spec fn decimal(n: nat) -> Seq<char>
    decreases n,
{
    if n < 10 {
        seq![digit(n)]
    } else {
        decimal(n / 10).push(digit(n % 10))
    }
}

/// Render `n` in decimal.
pub fn dec(n: u64) -> (out: String)
    ensures
        out@ == decimal(n as nat),
    decreases n,
{
    let mut out = if n < 10 {
        String::new()
    } else {
        dec(n / 10)
    };
    let d: u8 = (n % 10) as u8;
    out.push((48u8 + d) as char);
    assert(out@ =~= decimal(n as nat));
    out
}

/// `n` in decimal, padded on the left to at least two digits.
pub open spec fn decimal2(n: nat) -> Seq<char> {
    if n < 10 {
        seq!['0'] + decimal(n)
    } else {
        decimal(n)
    }
}

/// Render `n` in decimal with at least two digits.
pub fn dec2(n: u64) -> (out: String)
    ensures
        out@ == decimal2(n as nat),
{
    if n < 10 {
        let mut out = String::new();
        out.push('0');
        out.append(dec(n).as_str());
        assert(out@ =~= decimal2(n as nat));
        out
    } else {
        dec(n)
    }
}

/// The lowercase hexadecimal digit of value `d`.
pub open spec fn hex_digit(d: nat) -> char {
    if d < 10 {
        (48 + d) as char
    } else {
        (87 + d) as char
    }
}

/// `n` as `width` lowercase hexadecimal digits, most significant first.
pub open spec fn hexadecimal(n: nat, width: nat) -> Seq<char>
    decreases width,
{
    if width == 0 {
        seq![]
    } else {
        hexadecimal(n / 16, (width - 1) as nat).push(hex_digit(n % 16))
    }
}

/// Render `n` as exactly `width` hexadecimal digits.
pub fn hex(n: u64, width: u8) -> (out: String)
    ensures
        out@ == hexadecimal(n as nat, width as nat),
        out@.len() == width,
    decreases width,
{
    if width == 0 {
        let out = String::new();
        assert(out@ =~= hexadecimal(n as nat, width as nat));
        return out;
    }
    let mut out = hex(n / 16, width - 1);
    let d: u8 = (n % 16) as u8;
    if d < 10 {
        out.push((48u8 + d) as char);
    } else {
        out.push((87u8 + d) as char);
    }
    assert(out@ =~= hexadecimal(n as nat, width as nat));
    out
}

/// Position of the first `c` in `s`, or the length of `s` if there is none.
pub open spec fn find_char(s: Seq<char>, c: char) -> int
    decreases s.len(),
{
    if s.len() == 0 || s[0] == c {
        0
    } else {
        1 + find_char(s.drop_first(), c)
    }
}

/// Where `find_char` points is determined by what precedes it.
pub proof fn lemma_find_char(s: Seq<char>, c: char, i: int)
    requires
        0 <= i <= s.len(),
        forall|k: int| 0 <= k < i ==> s[k] != c,
        i < s.len() ==> s[i] == c,
    ensures
        find_char(s, c) == i,
    decreases s.len(),
{
    if s.len() > 0 && s[0] != c {
        lemma_find_char(s.drop_first(), c, i - 1);
    }
}

/// Position of the first `c` at or after `from`, or `chars.len()`.
pub fn find_from(chars: &Vec<char>, from: usize, c: char) -> (i: usize)
    requires
        from <= chars@.len(),
    ensures
        from <= i <= chars@.len(),
        i - from == find_char(chars@.skip(from as int), c),
        i < chars@.len() ==> chars@[i as int] == c,
        forall|k: int| from <= k < i ==> chars@[k] != c,
{
    let mut i: usize = from;
    while i < chars.len() && chars[i] != c
        invariant
            from <= i <= chars@.len(),
            forall|k: int| from <= k < i ==> chars@[k] != c,
        decreases chars@.len() - i,
    {
        i += 1;
    }
    proof {
        let s = chars@.skip(from as int);
        assert forall|k: int| 0 <= k < i - from implies s[k] != c by {
            assert(s[k] == chars@[from + k]);
        }
        lemma_find_char(s, c, i - from);
    }
    i
}

/// Whether the string holds `c`.
pub fn has_char(s: &str, c: char) -> (r: bool)
    ensures
        r == s@.contains(c),
{
    let chars = chars_of(s);
    let i = find_from(&chars, 0, c);
    if i < chars.len() {
        assert(s@[i as int] == c);
        true
    } else {
        false
    }
}

/// Whether the string begins with `prefix`.
pub fn starts_with(s: &str, prefix: &str) -> (r: bool)
    ensures
        r == prefix@.is_prefix_of(s@),
{
    let a = chars_of(s);
    let b = chars_of(prefix);
    if b.len() > a.len() {
        return false;
    }
    match_at(&a, 0, &b)
}

/// Whether the string ends with `suffix`.
pub fn ends_with(s: &str, suffix: &str) -> (r: bool)
    ensures
        r == suffix@.is_suffix_of(s@),
{
    let a = chars_of(s);
    let b = chars_of(suffix);
    if b.len() > a.len() {
        return false;
    }
    let at: usize = a.len() - b.len();
    match_at(&a, at, &b)
}

/// Whether `needle` stands in `hay` at position `at`.
fn match_at(hay: &Vec<char>, at: usize, needle: &Vec<char>) -> (r: bool)
    requires
        at + needle@.len() <= hay@.len(),
    ensures
        r == (hay@.subrange(at as int, at + needle@.len()) == needle@),
{
    let n: usize = hay.len();
    let mut i: usize = 0;
    while i < needle.len()
        invariant
            i <= needle@.len(),
            n == hay@.len(),
            at + needle@.len() <= n,
            forall|k: int| 0 <= k < i ==> hay@[at + k] == needle@[k],
        decreases needle@.len() - i,
    {
        if hay[at + i] != needle[i] {
            assert(hay@.subrange(at as int, at + needle@.len())[i as int] != needle@[i as int]);
            return false;
        }
        i += 1;
    }
    assert(hay@.subrange(at as int, at + needle@.len()) =~= needle@);
    true
}

/// `needle` occurs in `hay` at position `i`.
pub open spec fn occurs_at(hay: Seq<char>, needle: Seq<char>, i: int) -> bool {
    0 <= i && i + needle.len() <= hay.len() && hay.subrange(i, i + needle.len()) == needle
}

/// `needle` occurs somewhere in `hay`.
pub open spec fn occurs_in(hay: Seq<char>, needle: Seq<char>) -> bool {
    exists|i: int| occurs_at(hay, needle, i)
}

/// Whether `needle` occurs in `hay`.
pub fn contains_str(hay: &str, needle: &str) -> (r: bool)
    ensures
        r == occurs_in(hay@, needle@),
{
    let a = chars_of(hay);
    let b = chars_of(needle);
    if b.len() > a.len() {
        return false;
    }
    let last: usize = a.len() - b.len();
    let mut i: usize = 0;
    while i <= last
        invariant
            i <= last + 1,
            last == a@.len() - b@.len(),
            a@ == hay@,
            b@ == needle@,
            forall|k: int| 0 <= k < i ==> !occurs_at(hay@, needle@, k),
        decreases last + 1 - i,
    {
        if match_at(&a, i, &b) {
            assert(occurs_at(hay@, needle@, i as int));
            return true;
        }
        if i == last {
            assert forall|k: int| !occurs_at(hay@, needle@, k) by {}
            return false;
        }
        i += 1;
    }
    false
}

/// The Unicode `White_Space` property.
pub open spec fn is_space(c: char) -> bool {
    let u = c as u32;
    ||| 0x9 <= u <= 0xd
    ||| u == 0x20
    ||| u == 0x85
    ||| u == 0xa0
    ||| u == 0x1680
    ||| 0x2000 <= u <= 0x200a
    ||| u == 0x2028
    ||| u == 0x2029
    ||| u == 0x202f
    ||| u == 0x205f
    ||| u == 0x3000
}

/// Whether `c` is white space.
pub fn whitespace(c: char) -> (r: bool)
    ensures
        r == is_space(c),
{
    let u = c as u32;
    (0x9 <= u && u <= 0xd) || u == 0x20 || u == 0x85 || u == 0xa0 || u == 0x1680 || (0x2000 <= u
        && u <= 0x200a) || u == 0x2028 || u == 0x2029 || u == 0x202f || u == 0x205f || u == 0x3000
}

/// `s` without leading white space.
pub open spec fn trimmed_start(s: Seq<char>) -> Seq<char>
    decreases s.len(),
{
    if s.len() > 0 && is_space(s[0]) {
        trimmed_start(s.drop_first())
    } else {
        s
    }
}

/// `s` without trailing white space.
pub open spec fn trimmed_end(s: Seq<char>) -> Seq<char>
    decreases s.len(),
{
    if s.len() > 0 && is_space(s.last()) {
        trimmed_end(s.drop_last())
    } else {
        s
    }
}

/// `s` without white space at either end.
pub open spec fn trimmed(s: Seq<char>) -> Seq<char> {
    trimmed_end(trimmed_start(s))
}

/// First position at or after `from` that is not white space.
fn skip_space(chars: &Vec<char>, from: usize) -> (i: usize)
    requires
        from <= chars@.len(),
    ensures
        from <= i <= chars@.len(),
        chars@.skip(i as int) == trimmed_start(chars@.skip(from as int)),
        i < chars@.len() ==> !is_space(chars@[i as int]),
{
    let mut i: usize = from;
    while i < chars.len() && whitespace(chars[i])
        invariant
            from <= i <= chars@.len(),
            trimmed_start(chars@.skip(i as int)) == trimmed_start(chars@.skip(from as int)),
        decreases chars@.len() - i,
    {
        assert(chars@.skip(i as int).drop_first() =~= chars@.skip(i + 1));
        i += 1;
    }
    i
}

/// Strip white space from both ends.
pub fn trim(s: &str) -> (out: String)
    ensures
        out@ == trimmed(s@),
{
    let chars = chars_of(s);
    assert(chars@.skip(0) =~= chars@);
    let from = skip_space(&chars, 0);
    let mut to: usize = chars.len();
    let ghost mid = trimmed_start(s@);
    assert(chars@.subrange(from as int, to as int) =~= mid);
    while to > from && whitespace(chars[to - 1])
        invariant
            from <= to <= chars@.len(),
            trimmed_end(chars@.subrange(from as int, to as int)) == trimmed_end(mid),
        decreases to,
    {
        assert(chars@.subrange(from as int, to as int).drop_last() =~= chars@.subrange(
            from as int,
            to - 1,
        ));
        to -= 1;
    }
    string_of(&chars, from, to)
}

/// `line` without the carriage return that a line break may leave at its end.
pub open spec fn strip_cr(line: Seq<char>) -> Seq<char> {
    if line.len() > 0 && line.last() == '\r' {
        line.drop_last()
    } else {
        line
    }
}

/// The lines of a text: pieces ended by `\n` or `\r\n`, and a last piece that
/// needs no ending but is not empty.
pub open spec fn lines(s: Seq<char>) -> Seq<Seq<char>>
    decreases s.len(),
    via lines_shrink
{
    if s.len() == 0 {
        seq![]
    } else {
        let i = find_char(s, '\n');
        if i >= s.len() {
            seq![s]
        } else {
            seq![strip_cr(s.take(i))] + lines(s.skip(i + 1))
        }
    }
}

#[via_fn]
proof fn lines_shrink(s: Seq<char>) {
    lemma_find_char_bounds(s, '\n');
}

pub(crate) proof fn lemma_find_char_bounds(s: Seq<char>, c: char)
    ensures
        0 <= find_char(s, c) <= s.len(),
    decreases s.len(),
{
    if s.len() > 0 && s[0] != c {
        lemma_find_char_bounds(s.drop_first(), c);
    }
}

/// The views of a list of values.
pub open spec fn views<T: View>(s: Seq<T>) -> Seq<T::V> {
    s.map_values(|t: T| t@)
}

/// Split a text into lines.
pub fn split_lines(s: &str) -> (out: Vec<String>)
    ensures
        views(out@) == lines(s@),
{
    let chars = chars_of(s);
    let mut out: Vec<String> = Vec::new();
    let mut at: usize = 0;
    assert(chars@.skip(0) =~= chars@);
    assert(views(out@) + lines(s@) =~= lines(s@));
    while at < chars.len()
        invariant
            at <= chars@.len(),
            chars@ == s@,
            views(out@) + lines(chars@.skip(at as int)) == lines(s@),
        decreases chars@.len() - at,
    {
        let ghost rest = chars@.skip(at as int);
        let ghost before = views(out@);
        let end = find_from(&chars, at, '\n');
        if end < chars.len() {
            let mut to: usize = end;
            if to > at && chars[to - 1] == '\r' {
                to -= 1;
            }
            let line = string_of(&chars, at, to);
            assert(line@ =~= strip_cr(rest.take(end - at)));
            assert(rest.skip(end - at + 1) =~= chars@.skip(end + 1));
            out.push(line);
            assert(views(out@) =~= before.push(line@));
            assert(views(out@) + lines(chars@.skip(end + 1)) =~= before + lines(rest));
            at = end + 1;
        } else {
            let line = string_of(&chars, at, end);
            assert(line@ =~= rest);
            out.push(line);
            assert(views(out@) =~= before.push(line@));
            assert(chars@.skip(end as int) =~= seq![]);
            assert(views(out@) + lines(chars@.skip(end as int)) =~= before + lines(rest));
            at = end;
        }
    }
    assert(chars@.skip(at as int) =~= seq![]);
    assert(views(out@) + lines(chars@.skip(at as int)) =~= views(out@));
    out
}

/// Length of the run of characters before the first white space.
pub open spec fn word_len(s: Seq<char>) -> int
    decreases s.len(),
{
    if s.len() == 0 || is_space(s[0]) {
        0
    } else {
        1 + word_len(s.drop_first())
    }
}

proof fn lemma_word_len(s: Seq<char>, i: int)
    requires
        0 <= i <= s.len(),
        forall|k: int| 0 <= k < i ==> !is_space(s[k]),
        i < s.len() ==> is_space(s[i]),
    ensures
        word_len(s) == i,
    decreases s.len(),
{
    if s.len() > 0 && !is_space(s[0]) {
        lemma_word_len(s.drop_first(), i - 1);
    }
}

proof fn lemma_word_len_bounds(s: Seq<char>)
    ensures
        0 <= word_len(s) <= s.len(),
        s.len() > 0 && !is_space(s[0]) ==> word_len(s) > 0,
    decreases s.len(),
{
    if s.len() > 0 && !is_space(s[0]) {
        lemma_word_len_bounds(s.drop_first());
    }
}

proof fn lemma_trimmed_start_shrinks(s: Seq<char>)
    ensures
        trimmed_start(s).len() <= s.len(),
        trimmed_start(s).len() > 0 ==> !is_space(trimmed_start(s)[0]),
    decreases s.len(),
{
    if s.len() > 0 && is_space(s[0]) {
        lemma_trimmed_start_shrinks(s.drop_first());
    }
}

/// The maximal runs of characters that are not white space.
pub open spec fn words(s: Seq<char>) -> Seq<Seq<char>>
    decreases s.len(),
    via words_shrink
{
    let t = trimmed_start(s);
    if t.len() == 0 {
        seq![]
    } else {
        seq![t.take(word_len(t))] + words(t.skip(word_len(t)))
    }
}

#[via_fn]
proof fn words_shrink(s: Seq<char>) {
    lemma_trimmed_start_shrinks(s);
    lemma_word_len_bounds(trimmed_start(s));
}

/// Split a text at white space.
pub fn split_words(s: &str) -> (out: Vec<String>)
    ensures
        views(out@) == words(s@),
{
    let chars = chars_of(s);
    let mut out: Vec<String> = Vec::new();
    assert(chars@.skip(0) =~= chars@);
    let mut at: usize = skip_space(&chars, 0);
    proof {
        lemma_trimmed_start_fixed(chars@.skip(0));
        assert(words(chars@.skip(at as int)) == words(s@));
    }
    assert(views(out@) + words(chars@.skip(at as int)) =~= words(s@));
    while at < chars.len()
        invariant
            at <= chars@.len(),
            at < chars@.len() ==> !is_space(chars@[at as int]),
            chars@ == s@,
            views(out@) + words(chars@.skip(at as int)) == words(s@),
        decreases chars@.len() - at,
    {
        let ghost rest = chars@.skip(at as int);
        let ghost before = views(out@);
        let mut end: usize = at;
        while end < chars.len() && !whitespace(chars[end])
            invariant
                at <= end <= chars@.len(),
                forall|k: int| at <= k < end ==> !is_space(chars@[k]),
            decreases chars@.len() - end,
        {
            end += 1;
        }
        proof {
            assert forall|k: int| 0 <= k < end - at implies !is_space(rest[k]) by {
                assert(rest[k] == chars@[at + k]);
            }
            lemma_word_len(rest, end - at);
            assert(trimmed_start(rest) == rest);
        }
        let word = string_of(&chars, at, end);
        assert(word@ =~= rest.take(end - at));
        out.push(word);
        assert(views(out@) =~= before.push(word@));
        let next = skip_space(&chars, end);
        assert(rest.skip(end - at) =~= chars@.skip(end as int));
        proof {
            lemma_trimmed_start_fixed(chars@.skip(end as int));
            assert(words(chars@.skip(next as int)) == words(chars@.skip(end as int)));
        }
        assert(views(out@) + words(chars@.skip(next as int)) =~= before + words(rest));
        proof {
            assert(next > at);
        }
        at = next;
    }
    assert(chars@.skip(at as int) =~= seq![]);
    assert(views(out@) + words(chars@.skip(at as int)) =~= views(out@));
    out
}

proof fn lemma_trimmed_start_fixed(s: Seq<char>)
    ensures
        trimmed_start(trimmed_start(s)) == trimmed_start(s),
{
    lemma_trimmed_start_shrinks(s);
}

/// The value of the digit `c`.
pub open spec fn digit_value(c: char) -> nat {
    (c as u32 - 48) as nat
}

/// Whether `c` is a decimal digit.
pub open spec fn is_digit(c: char) -> bool {
    48 <= c as u32 <= 57
}

/// Whether every character is a decimal digit.
pub open spec fn all_digits(s: Seq<char>) -> bool {
    forall|i: int| 0 <= i < s.len() ==> is_digit(#[trigger] s[i])
}

/// The number that a run of decimal digits writes.
pub open spec fn digits_value(s: Seq<char>) -> nat
    decreases s.len(),
{
    if s.len() == 0 {
        0
    } else {
        10 * digits_value(s.drop_last()) + digit_value(s.last())
    }
}

/// A port number as text: an optional `+`, then one or more digits whose value
/// is at most 65535.
pub open spec fn port_number(s: Seq<char>) -> Option<u16> {
    let body = if s.len() > 0 && s[0] == '+' {
        s.drop_first()
    } else {
        s
    };
    if body.len() == 0 || !all_digits(body) || digits_value(body) > 65535 {
        None
    } else {
        Some(digits_value(body) as u16)
    }
}

proof fn lemma_digits_value_grows(s: Seq<char>, i: int)
    requires
        0 <= i <= s.len(),
        all_digits(s),
    ensures
        digits_value(s.take(i)) <= digits_value(s),
    decreases s.len(),
{
    if i == s.len() {
        assert(s.take(i) =~= s);
    } else {
        let t = s.drop_last();
        assert(all_digits(t));
        lemma_digits_value_grows(t, i);
        assert(t.take(i) =~= s.take(i));
    }
}

/// Read a port number.
pub fn parse_port(s: &str) -> (r: Option<u16>)
    ensures
        r == port_number(s@),
{
    let chars = chars_of(s);
    let from: usize = if chars.len() > 0 && chars[0] == '+' {
        1
    } else {
        0
    };
    let ghost body = chars@.skip(from as int);
    assert(body =~= if s@.len() > 0 && s@[0] == '+' {
        s@.drop_first()
    } else {
        s@
    });
    if from == chars.len() {
        return None;
    }
    let mut value: u32 = 0;
    let mut i: usize = from;
    while i < chars.len()
        invariant
            from <= i <= chars@.len(),
            body == chars@.skip(from as int),
            body.len() > 0,
            body == if s@.len() > 0 && s@[0] == '+' {
                s@.drop_first()
            } else {
                s@
            },
            value <= 65535,
            value == digits_value(body.take(i - from)),
            forall|k: int| 0 <= k < i - from ==> is_digit(#[trigger] body[k]),
        decreases chars@.len() - i,
    {
        let c = chars[i];
        let u = c as u32;
        assert(body[i - from] == c);
        if u < 48 || u > 57 {
            assert(!all_digits(body));
            return None;
        }
        assert(body.take(i - from + 1).drop_last() =~= body.take(i - from));
        value = 10 * value + (u - 48);
        i += 1;
        if value > 65535 {
            proof {
                if all_digits(body) {
                    lemma_digits_value_grows(body, i - from);
                }
            }
            return None;
        }
    }
    assert(body.take(i - from) =~= body);
    assert(all_digits(body));
    Some(value as u16)
}

/// What `str::to_lowercase` gives for a string.
pub uninterp spec fn lowercase(s: Seq<char>) -> Seq<char>;

/// `str::to_lowercase`: the lowercase equivalent of a string under Unicode's
/// case mapping, which depends on the string alone.
#[verifier::external_body]
pub(crate) fn to_lowercase(s: &str) -> (out: String)
    ensures
        out@ == lowercase(s@),
{
    s.to_lowercase()
}

/// Two strings joined.
pub fn concat2(a: &str, b: &str) -> (out: String)
    ensures
        out@ == a@ + b@,
{
    a.to_owned().concat(b)
}

/// Three strings joined.
pub fn concat3(a: &str, b: &str, c: &str) -> (out: String)
    ensures
        out@ == a@ + b@ + c@,
{
    a.to_owned().concat(b).concat(c)
}

/// Four strings joined.
pub fn concat4(a: &str, b: &str, c: &str, d: &str) -> (out: String)
    ensures
        out@ == a@ + b@ + c@ + d@,
{
    a.to_owned().concat(b).concat(c).concat(d)
}

/// Five strings joined.
pub fn concat5(a: &str, b: &str, c: &str, d: &str, e: &str) -> (out: String)
    ensures
        out@ == a@ + b@ + c@ + d@ + e@,
{
    a.to_owned().concat(b).concat(c).concat(d).concat(e)
}

/// A number is read back as it was written: its digits stand in order, with none
/// to spare, so a port that is written is the port that is read.
pub proof fn law_a_number_is_read_back(n: nat)
    ensures
        decimal(n).len() > 0,
        all_digits(decimal(n)),
        digits_value(decimal(n)) == n,
        n > 0 ==> decimal(n)[0] != '0',
        n <= 65535 ==> port_number(decimal(n)) == Some(n as u16),
    decreases n,
{
    if n >= 10 {
        law_a_number_is_read_back(n / 10);
        let d = decimal(n);
        assert(d.drop_last() =~= decimal(n / 10));
        assert forall|i: int| 0 <= i < d.len() implies is_digit(#[trigger] d[i]) by {
            if i < d.len() - 1 {
                assert(is_digit(decimal(n / 10)[i]));
            }
        }
        assert(d[0] == decimal(n / 10)[0]);
        assert(d.last() == digit(n % 10));
        assert(digit_value(digit(n % 10)) == n % 10);
        assert(digits_value(d) == 10 * digits_value(d.drop_last()) + digit_value(d.last()));
    } else {
        let d = decimal(n);
        assert(d.drop_last() =~= seq![]);
        assert(digits_value(d.drop_last()) == 0);
        assert(d.last() == digit(n));
        assert(digit_value(digit(n)) == n);
    }
    assert(is_digit(decimal(n)[0]));
    assert(decimal(n)[0] != '+');
}

/// What each digit is worth, and that only the ten digits are any.
pub proof fn law_digits_count_from_zero(c: char, n: nat)
    ensures
        is_digit(c) <==> '0' <= c <= '9',
        digit_value('0') == 0,
        n < 9 ==> digit_value((48 + n) as char) + 1 == digit_value((49 + n) as char),
        n < 10 ==> decimal(n) == seq![(48 + n) as char],
{
}

/// A port is one or more digits, perhaps behind a plus sign, and at most 65535.
/// Leading zeros change nothing.
pub proof fn law_what_reads_as_a_port(s: Seq<char>)
    ensures
        port_number(s) is Some ==> s.len() > 0 && ('0' <= s.last() <= '9') && forall|i: int|
            1 <= i < s.len() ==> '0' <= #[trigger] s[i] && s[i] <= '9',
        port_number(s) is Some ==> s[0] == '+' || '0' <= s[0] <= '9',
        s.len() > 0 && all_digits(s) ==> port_number(seq!['0'] + s) == port_number(s),
        s.len() > 0 && all_digits(s) ==> port_number(seq!['+'] + s) == port_number(s),
{
    if port_number(s) is Some {
        let body = if s[0] == '+' {
            s.drop_first()
        } else {
            s
        };
        assert(body[body.len() - 1] == s.last());
        assert(is_digit(body[body.len() - 1]));
        law_digits_count_from_zero(s.last(), 0);
        assert forall|i: int| 1 <= i < s.len() implies '0' <= #[trigger] s[i] && s[i] <= '9' by {
            if s[0] == '+' {
                assert(is_digit(body[i - 1]));
            } else {
                assert(is_digit(body[i]));
            }
            law_digits_count_from_zero(s[i], 0);
        }
        law_digits_count_from_zero(s[0], 0);
        if s[0] != '+' {
            assert(is_digit(body[0]));
        }
    }
    if s.len() > 0 && all_digits(s) {
        assert(is_digit(s[0]));
        let z = seq!['0'] + s;
        assert forall|i: int| 0 <= i < z.len() implies is_digit(#[trigger] z[i]) by {
            if i > 0 {
                assert(is_digit(s[i - 1]));
            }
        }
        lemma_leading_zero(s);
        assert((seq!['+'] + s).drop_first() =~= s);
    }
}

proof fn lemma_leading_zero(s: Seq<char>)
    ensures
        digits_value(seq!['0'] + s) == digits_value(s),
    decreases s.len(),
{
    let z = seq!['0'] + s;
    if s.len() == 0 {
        assert(z.drop_last() =~= seq![]);
        assert(digits_value(z.drop_last()) == 0);
        assert(z.last() == '0');
    } else {
        assert(z.last() == s.last());
        lemma_leading_zero(s.drop_last());
        assert(z.drop_last() =~= seq!['0'] + s.drop_last());
    }
}

/// Spaces, tabs and line breaks are white space; what is printed is not.
pub proof fn law_what_is_white_space(c: char)
    ensures
        c == ' ' || c == '\t' || c == '\n' || c == '\r' ==> is_space(c),
        '!' <= c <= '~' ==> !is_space(c),
        c == '→' || c == '…' || c == '·' ==> !is_space(c),
{
}

proof fn lemma_trimmed_start_place(s: Seq<char>) -> (a: int)
    ensures
        0 <= a <= s.len(),
        trimmed_start(s) == s.skip(a),
        forall|k: int| 0 <= k < a ==> is_space(#[trigger] s[k]),
        a < s.len() ==> !is_space(s[a]),
    decreases s.len(),
{
    if s.len() > 0 && is_space(s[0]) {
        let a = lemma_trimmed_start_place(s.drop_first());
        assert(s.drop_first().skip(a) =~= s.skip(a + 1));
        assert forall|k: int| 0 <= k < a + 1 implies is_space(#[trigger] s[k]) by {
            if k > 0 {
                assert(is_space(s.drop_first()[k - 1]));
            }
        }
        a + 1
    } else {
        assert(s.skip(0) =~= s);
        0
    }
}

proof fn lemma_trimmed_end_place(s: Seq<char>) -> (b: int)
    ensures
        0 <= b <= s.len(),
        trimmed_end(s) == s.take(b),
        forall|k: int| b <= k < s.len() ==> is_space(#[trigger] s[k]),
        b > 0 ==> !is_space(s[b - 1]),
    decreases s.len(),
{
    if s.len() > 0 && is_space(s.last()) {
        let b = lemma_trimmed_end_place(s.drop_last());
        assert(s.drop_last().take(b) =~= s.take(b));
        assert forall|k: int| b <= k < s.len() implies is_space(#[trigger] s[k]) by {
            if k < s.len() - 1 {
                assert(is_space(s.drop_last()[k]));
            }
        }
        b
    } else {
        assert(s.take(s.len() as int) =~= s);
        s.len() as int
    }
}

/// Trimming takes white space off both ends, all of it, and nothing else.
pub proof fn law_trimming_takes_only_white_space(s: Seq<char>)
    ensures
        exists|a: int, b: int|
            0 <= a <= b <= s.len() && trimmed(s) == #[trigger] s.subrange(a, b) && (forall|k: int|
                0 <= k < a || b <= k < s.len() ==> is_space(#[trigger] s[k])),
        trimmed(s).len() > 0 ==> !is_space(trimmed(s)[0]) && !is_space(trimmed(s).last()),
{
    let a = lemma_trimmed_start_place(s);
    let t = s.skip(a);
    let n = lemma_trimmed_end_place(t);
    let b = a + n;
    assert(t.take(n) =~= s.subrange(a, b));
    assert forall|k: int| 0 <= k < a || b <= k < s.len() implies is_space(#[trigger] s[k]) by {
        if k >= b {
            assert(is_space(t[k - a]));
        }
    }
    if n > 0 {
        assert(t.take(n)[0] == s[a]);
        assert(t.take(n).last() == t[n - 1]);
    }
}

/// Words hold no white space and are never empty.
pub proof fn law_words_hold_no_white_space(s: Seq<char>, i: int, k: int)
    requires
        0 <= i < words(s).len(),
    ensures
        words(s)[i].len() > 0,
        0 <= k < words(s)[i].len() ==> !is_space(words(s)[i][k]),
    decreases s.len(),
{
    let t = trimmed_start(s);
    lemma_trimmed_start_shrinks(s);
    lemma_word_len_bounds(t);
    lemma_word_len_clear(t);
    if i > 0 {
        law_words_hold_no_white_space(t.skip(word_len(t)), i - 1, k);
    }
}

proof fn lemma_word_len_clear(s: Seq<char>)
    ensures
        0 <= word_len(s) <= s.len(),
        forall|k: int| 0 <= k < word_len(s) ==> !is_space(#[trigger] s[k]),
        word_len(s) < s.len() ==> is_space(s[word_len(s)]),
    decreases s.len(),
{
    if s.len() > 0 && !is_space(s[0]) {
        let t = s.drop_first();
        lemma_word_len_clear(t);
        assert forall|k: int| 0 <= k < word_len(s) implies !is_space(#[trigger] s[k]) by {
            if k > 0 {
                assert(!is_space(t[k - 1]));
            }
        }
    }
}

/// A run of characters between white space is a word.
pub proof fn law_a_run_between_white_space_is_a_word(s: Seq<char>, a: int, b: int)
    requires
        0 <= a < b <= s.len(),
        a == 0 || is_space(s[a - 1]),
        b == s.len() || is_space(s[b]),
        forall|k: int| a <= k < b ==> !is_space(#[trigger] s[k]),
    ensures
        words(s).contains(s.subrange(a, b)),
    decreases s.len(),
{
    let from = lemma_trimmed_start_place(s);
    let t = s.skip(from);
    let n = word_len(t);
    lemma_word_len_clear(t);
    lemma_trimmed_start_shrinks(s);
    lemma_word_len_bounds(t);
    assert(!is_space(s[a]));
    assert(from <= a);
    assert(t.len() > 0);
    let rest = t.skip(n);
    if a == from {
        assert forall|k: int| 0 <= k < b - a implies !is_space(t[k]) by {
            assert(!is_space(s[a + k]));
        }
        lemma_word_len(t, b - a);
        assert(t.take(n) =~= s.subrange(a, b));
        assert(words(s)[0] == s.subrange(a, b));
    } else {
        if a < from + n {
            assert(!is_space(t[a - 1 - from]));
        }
        let (c, d) = (a - from - n, b - from - n);
        assert(rest =~= s.skip(from + n));
        assert forall|k: int| c <= k < d implies !is_space(#[trigger] rest[k]) by {
            assert(!is_space(s[from + n + k]));
        }
        law_a_run_between_white_space_is_a_word(rest, c, d);
        assert(rest.subrange(c, d) =~= s.subrange(a, b));
        let more = words(rest);
        let i = choose|i: int| 0 <= i < more.len() && more[i] == s.subrange(a, b);
        assert(words(s)[1 + i] == more[i]);
    }
}

/// What stands between two line breaks is a line, without the carriage return
/// that may belong to the break; so is what stands after the last one.
pub proof fn law_what_stands_between_breaks_is_a_line(s: Seq<char>, a: int, b: int)
    requires
        0 <= a <= b <= s.len(),
        a == 0 || s[a - 1] == '\n',
        b == s.len() ==> a < b,
        b < s.len() ==> s[b] == '\n',
        forall|k: int| a <= k < b ==> #[trigger] s[k] != '\n',
    ensures
        b == s.len() ==> lines(s).contains(s.subrange(a, b)),
        b < s.len() && (a == b || s[b - 1] != '\r') ==> lines(s).contains(s.subrange(a, b)),
        b < s.len() && a < b && s[b - 1] == '\r' ==> lines(s).contains(s.subrange(a, b - 1)),
    decreases s.len(),
{
    let i = find_char(s, '\n');
    lemma_find_char_bounds(s, '\n');
    lemma_find_char_first(s, '\n');
    if a == 0 {
        lemma_find_char(s, '\n', b);
        if b == s.len() {
            assert(s.subrange(0, b) =~= s);
            assert(lines(s)[0] == s);
        } else {
            assert(s.take(b) =~= s.subrange(0, b));
            assert(lines(s)[0] == strip_cr(s.take(b)));
            if b > 0 && s[b - 1] == '\r' {
                assert(s.take(b).drop_last() =~= s.subrange(0, b - 1));
            }
        }
    } else {
        assert(i <= a - 1);
        let rest = s.skip(i + 1);
        let (c, d) = (a - i - 1, b - i - 1);
        assert forall|k: int| c <= k < d implies #[trigger] rest[k] != '\n' by {
            assert(rest[k] == s[i + 1 + k]);
        }
        law_what_stands_between_breaks_is_a_line(rest, c, d);
        assert(rest.subrange(c, d) =~= s.subrange(a, b));
        let want = if b < s.len() && a < b && s[b - 1] == '\r' {
            assert(rest.subrange(c, d - 1) =~= s.subrange(a, b - 1));
            s.subrange(a, b - 1)
        } else {
            s.subrange(a, b)
        };
        let more = lines(rest);
        let k = choose|k: int| 0 <= k < more.len() && more[k] == want;
        assert(lines(s)[1 + k] == more[k]);
    }
}

pub(crate) proof fn lemma_find_char_first(s: Seq<char>, c: char)
    ensures
        forall|k: int| 0 <= k < find_char(s, c) ==> #[trigger] s[k] != c,
        find_char(s, c) < s.len() ==> s[find_char(s, c)] == c,
    decreases s.len(),
{
    if s.len() > 0 && s[0] != c {
        let t = s.drop_first();
        lemma_find_char_first(t, c);
        lemma_find_char_bounds(t, c);
        assert forall|k: int| 0 <= k < find_char(s, c) implies #[trigger] s[k] != c by {
            if k > 0 {
                assert(t[k - 1] != c);
            }
        }
    }
}

/// Lines hold no line break.
pub proof fn law_lines_hold_no_break(s: Seq<char>, i: int, k: int)
    requires
        0 <= i < lines(s).len(),
        0 <= k < lines(s)[i].len(),
    ensures
        lines(s)[i][k] != '\n',
    decreases s.len(),
{
    let at = find_char(s, '\n');
    lemma_find_char_bounds(s, '\n');
    lemma_find_char_first(s, '\n');
    if at < s.len() && i > 0 {
        law_lines_hold_no_break(s.skip(at + 1), i - 1, k);
    }
}

/// A text occurs in another exactly when the other can be written with it in the
/// middle.
pub proof fn law_occurring_is_standing_somewhere(before: Seq<char>, needle: Seq<char>, behind: Seq<char>)
    ensures
        occurs_in(before + needle + behind, needle),
        occurs_in(before, needle) ==> exists|i: int|
            0 <= i && i + needle.len() <= before.len() && before == before.take(i) + needle
                + #[trigger] before.skip(i + needle.len()),
{
    let hay = before + needle + behind;
    assert(hay.subrange(before.len() as int, (before.len() + needle.len()) as int) =~= needle);
    assert(occurs_at(hay, needle, before.len() as int));
    if occurs_in(before, needle) {
        let i = choose|i: int| occurs_at(before, needle, i);
        assert forall|k: int| 0 <= k < needle.len() implies before[i + k] == needle[k] by {
            assert(before.subrange(i, i + needle.len())[k] == before[i + k]);
        }
        assert(before =~= before.take(i) + needle + before.skip(i + needle.len()));
    }
}

/// Hexadecimal digits count from nought to nine and on from a to f, the last one
/// being worth one, the one before it sixteen, and so on.
pub proof fn law_how_hexadecimal_is_written(n: nat, width: nat, d: nat)
    requires
        width > 0,
    ensures
        d < 10 ==> hex_digit(d) == (48 + d) as char,
        10 <= d < 16 ==> hex_digit(d) == (97 + (d - 10)) as char,
        hexadecimal(n, width).last() == hex_digit(n % 16),
        hexadecimal(n, width).drop_last() == hexadecimal(n / 16, (width - 1) as nat),
        hexadecimal(n, 0).len() == 0,
{
    assert(hexadecimal(n, width).drop_last() =~= hexadecimal(n / 16, (width - 1) as nat));
}

/// How a text falls into lines: what stands before its first break is one, and
/// what stands after it falls into the others.
pub proof fn law_how_a_text_falls_into_lines(a: Seq<char>, b: Seq<char>)
    requires
        !a.contains('\n'),
    ensures
        lines(seq![]) == Seq::<Seq<char>>::empty(),
        a.len() > 0 ==> lines(a) == seq![a],
        a.len() == 0 || a.last() != '\r' ==> lines(a + seq!['\n'] + b) == seq![a] + lines(b),
        lines(a + seq!['\r', '\n'] + b) == seq![a] + lines(b),
{
    let n = a.len() as int;
    assert forall|k: int| 0 <= k < n implies a[k] != '\n' by {
        assert(a.contains(a[k]));
    }
    if n > 0 {
        lemma_find_char(a, '\n', n);
    }
    let s = a + seq!['\n'] + b;
    lemma_find_char(s, '\n', n);
    assert(s.take(n) =~= a);
    assert(s.skip(n + 1) =~= b);
    let t = a + seq!['\r', '\n'] + b;
    assert(t[n] == '\r');
    lemma_find_char(t, '\n', n + 1);
    assert(t.take(n + 1) =~= a.push('\r'));
    assert(a.push('\r').drop_last() =~= a);
    assert(t.skip(n + 2) =~= b);
}

/// How a text falls into words: white space only parts them.
pub proof fn law_how_a_text_falls_into_words(w: Seq<char>, c: char, rest: Seq<char>)
    requires
        w.len() > 0,
        forall|k: int| 0 <= k < w.len() ==> !is_space(#[trigger] w[k]),
        is_space(c),
    ensures
        words(seq![]) == Seq::<Seq<char>>::empty(),
        words(w) == seq![w],
        words(seq![c] + rest) == words(rest),
        words(w + seq![c] + rest) == seq![w] + words(rest),
{
    let n = w.len() as int;
    assert(trimmed_start(Seq::<char>::empty()) =~= seq![]);
    assert(!is_space(w[0]));
    lemma_word_len(w, n);
    assert(w.take(n) =~= w);
    assert(w.skip(n) =~= seq![]);
    let s = seq![c] + rest;
    assert(s.drop_first() =~= rest);
    assert(trimmed_start(s) == trimmed_start(rest));
    let t = w + seq![c] + rest;
    assert(t[0] == w[0]);
    assert forall|k: int| 0 <= k < n implies !is_space(t[k]) by {
        assert(t[k] == w[k]);
        assert(!is_space(w[k]));
    }
    assert(t[n] == c);
    lemma_word_len(t, n);
    assert(t.take(n) =~= w);
    assert(t.skip(n) =~= s);
}

/// Exactly the characters that Unicode calls white space are.
pub proof fn law_white_space_is_what_unicode_says(c: char)
    ensures
        is_space(c) <==> {
            ||| c == '\t' || c == '\n' || c == '\u{b}' || c == '\u{c}' || c == '\r' || c == ' '
            ||| c == '\u{85}' || c == '\u{a0}' || c == '\u{1680}' || c == '\u{2028}'
            ||| c == '\u{2029}' || c == '\u{202f}' || c == '\u{205f}' || c == '\u{3000}'
            ||| '\u{2000}' <= c <= '\u{200a}'
        },
{
}

}
