//! Text: white space, lines, decimal numbers, substitution, and the slices of
//! a string that byte offsets name.
use vstd::prelude::*;
use vstd::string::StringExecFns;
use vstd::utf8::*;

verus! {

/// `String::push` appends one character.
pub assume_specification[ String::push ](text: &mut String, c: char)
    ensures
        final(text)@ == old(text)@.push(c),
;

/// The texts of a list of strings.
pub open spec fn texts(list: Seq<String>) -> Seq<Seq<char>> {
    Seq::new(list.len(), |i: int| list[i]@)
}

/// The characters of Unicode's `White_Space` property.
pub open spec fn is_space(c: char) -> bool {
    let n = c as u32;
    ||| 0x9 <= n <= 0xd
    ||| n == 0x20
    ||| n == 0x85
    ||| n == 0xa0
    ||| n == 0x1680
    ||| 0x2000 <= n <= 0x200a
    ||| n == 0x2028
    ||| n == 0x2029
    ||| n == 0x202f
    ||| n == 0x205f
    ||| n == 0x3000
}

/// Whether `c` is white space.
pub fn is_whitespace(c: char) -> (space: bool)
    ensures
        space == is_space(c),
{
    let n: u32 = c as u32;
    (0x9 <= n && n <= 0xd) || n == 0x20 || n == 0x85 || n == 0xa0 || n == 0x1680 || (0x2000 <= n
        && n <= 0x200a) || n == 0x2028 || n == 0x2029 || n == 0x202f || n == 0x205f || n == 0x3000
}

/// The characters of `text`.
pub fn chars_of(text: &str) -> (chars: Vec<char>)
    ensures
        chars@ == text@,
{
    let mut chars: Vec<char> = Vec::new();
    for c in it: text.chars()
        invariant
            it.seq() == text@,
            chars@ == text@.take(it.index() as int),
    {
        chars.push(c);
    }
    assert(text@.take(text@.len() as int) == text@);
    chars
}

/// The characters from `from` up to `to` as a string.
pub fn string_of(chars: &Vec<char>, from: usize, to: usize) -> (text: String)
    requires
        from <= to <= chars@.len(),
    ensures
        text@ == chars@.subrange(from as int, to as int),
{
    let mut text = String::new();
    let mut i: usize = from;
    while i < to
        invariant
            from <= i <= to <= chars@.len(),
            text@ == chars@.subrange(from as int, i as int),
        decreases to - i,
    {
        text.push(chars[i]);
        i = i + 1;
    }
    text
}

/// `s` without the white space that it begins with.
pub open spec fn trim_start(s: Seq<char>) -> Seq<char>
    decreases s.len(),
{
    if s.len() > 0 && is_space(s[0]) {
        trim_start(s.skip(1))
    } else {
        s
    }
}

/// `s` without the white space that it ends with.
pub open spec fn trim_end(s: Seq<char>) -> Seq<char>
    decreases s.len(),
{
    if s.len() > 0 && is_space(s.last()) {
        trim_end(s.drop_last())
    } else {
        s
    }
}

/// `s` without the white space at both its ends.
pub open spec fn trim(s: Seq<char>) -> Seq<char> {
    trim_end(trim_start(s))
}

/// The index of the first `c` in `s`, or the length of `s` if it holds none.
pub open spec fn find(s: Seq<char>, c: char) -> int
    decreases s.len(),
{
    if s.len() == 0 || s[0] == c {
        0
    } else {
        1 + find(s.skip(1), c)
    }
}

/// The lines of `s`. A line feed ends a line, and the last line may end
/// without one. A carriage return before the line feed stays: it is white
/// space at the end of the line.
pub open spec fn lines(s: Seq<char>) -> Seq<Seq<char>>
    decreases s.len(),
{
    let n = find(s, '\n');
    if s.len() == 0 {
        Seq::empty()
    } else if 0 <= n < s.len() {
        seq![s.take(n)] + lines(s.skip(n + 1))
    } else {
        seq![s]
    }
}

/// What [`find`] gives is the first place of `c`, or the end.
pub proof fn lemma_find(s: Seq<char>, c: char)
    ensures
        0 <= find(s, c) <= s.len(),
        forall|i: int| 0 <= i < find(s, c) ==> s[i] != c,
        find(s, c) < s.len() ==> s[find(s, c)] == c,
    decreases s.len(),
{
    if s.len() > 0 && s[0] != c {
        lemma_find(s.skip(1), c);
        assert forall|i: int| 0 <= i < find(s, c) implies s[i] != c by {
            if i > 0 {
                assert(s[i] == s.skip(1)[i - 1]);
            }
        }
    }
}

/// The first place of `c`, or the end, is what [`find`] gives.
pub proof fn lemma_find_at(s: Seq<char>, c: char, n: int)
    requires
        0 <= n <= s.len(),
        forall|i: int| 0 <= i < n ==> s[i] != c,
        n < s.len() ==> s[n] == c,
    ensures
        find(s, c) == n,
{
    lemma_find(s, c);
    let f = find(s, c);
    if f < n {
        assert(s[f] != c);
    }
}

/// The index of the first `c` of `chars` at or after `from`, or their number.
fn find_from(chars: &Vec<char>, from: usize, c: char) -> (at: usize)
    requires
        from <= chars@.len(),
    ensures
        at == from + find(chars@.skip(from as int), c),
        from <= at <= chars@.len(),
{
    let mut at: usize = from;
    while at < chars.len() && chars[at] != c
        invariant
            from <= at <= chars@.len(),
            forall|i: int| from <= i < at ==> chars@[i] != c,
        decreases chars@.len() - at,
    {
        at = at + 1;
    }
    proof {
        lemma_find_at(chars@.skip(from as int), c, at - from);
    }
    at
}

/// The lines of `text`.
pub fn lines_of(text: &str) -> (list: Vec<String>)
    ensures
        texts(list@) == lines(text@),
{
    let chars = chars_of(text);
    let mut list: Vec<String> = Vec::new();
    let mut from: usize = 0;
    assert(chars@.skip(0) == chars@);
    while from < chars.len()
        invariant
            from <= chars@.len(),
            chars@ == text@,
            lines(text@) == texts(list@) + lines(chars@.skip(from as int)),
        decreases chars@.len() - from,
    {
        let at = find_from(&chars, from, '\n');
        let ghost rest = chars@.skip(from as int);
        let ghost before = texts(list@);
        let line = string_of(&chars, from, at);
        list.push(line);
        assert(texts(list@) == before.push(line@));
        assert(line@ == rest.take(at - from));
        if at < chars.len() {
            assert(rest.skip(at - from + 1) == chars@.skip(at + 1));
            from = at + 1;
        } else {
            assert(rest.take(at - from) == rest);
            from = at;
            assert(lines(chars@.skip(from as int)) == Seq::<Seq<char>>::empty());
        }
        assert(lines(text@) == texts(list@) + lines(chars@.skip(from as int)));
    }
    assert(lines(chars@.skip(from as int)) == Seq::<Seq<char>>::empty());
    list
}

/// Where the first `n` characters are white space and the next is not, they
/// are what trimming takes from the start.
pub proof fn lemma_trim_start(s: Seq<char>, n: int)
    requires
        0 <= n <= s.len(),
        forall|i: int| 0 <= i < n ==> is_space(s[i]),
        n < s.len() ==> !is_space(s[n]),
    ensures
        trim_start(s) == s.skip(n),
    decreases n,
{
    if n > 0 {
        let rest = s.skip(1);
        assert forall|i: int| 0 <= i < n - 1 implies is_space(rest[i]) by {
            assert(rest[i] == s[i + 1]);
        }
        lemma_trim_start(rest, n - 1);
        assert(rest.skip(n - 1) == s.skip(n));
    } else {
        assert(s.skip(0) == s);
    }
}

/// Where all characters from the `n`th on are white space and the one before
/// them is not, they are what trimming takes from the end.
pub proof fn lemma_trim_end(s: Seq<char>, n: int)
    requires
        0 <= n <= s.len(),
        forall|i: int| n <= i < s.len() ==> is_space(s[i]),
        n > 0 ==> !is_space(s[n - 1]),
    ensures
        trim_end(s) == s.take(n),
    decreases s.len() - n,
{
    if n < s.len() {
        lemma_trim_end(s.drop_last(), n);
        assert(s.drop_last().take(n) == s.take(n));
    } else {
        assert(s.take(n) == s);
    }
}

/// The number of characters of white space that `chars` begin with.
fn leading_space(chars: &Vec<char>) -> (n: usize)
    ensures
        n <= chars@.len(),
        trim_start(chars@) == chars@.skip(n as int),
{
    let mut n: usize = 0;
    while n < chars.len() && is_whitespace(chars[n])
        invariant
            n <= chars@.len(),
            forall|i: int| 0 <= i < n ==> is_space(chars@[i]),
        decreases chars@.len() - n,
    {
        n = n + 1;
    }
    proof {
        lemma_trim_start(chars@, n as int);
    }
    n
}

/// The end of `chars` from `from` on once the white space there is left out.
fn trimmed_end(chars: &Vec<char>, from: usize) -> (end: usize)
    requires
        from <= chars@.len(),
    ensures
        from <= end <= chars@.len(),
        trim_end(chars@.skip(from as int)) == chars@.subrange(from as int, end as int),
{
    let mut end: usize = chars.len();
    while from < end && is_whitespace(chars[end - 1])
        invariant
            from <= end <= chars@.len(),
            forall|i: int| end <= i < chars@.len() ==> is_space(chars@[i]),
        decreases end,
    {
        end = end - 1;
    }
    proof {
        let s = chars@.skip(from as int);
        assert forall|i: int| end - from <= i < s.len() implies is_space(s[i]) by {
            assert(s[i] == chars@[i + from]);
        }
        lemma_trim_end(s, end - from);
        assert(s.take(end - from) == chars@.subrange(from as int, end as int));
    }
    end
}

/// `text` without the white space that it begins with.
pub fn without_leading_space(text: &str) -> (trimmed: String)
    ensures
        trimmed@ == trim_start(text@),
{
    let chars = chars_of(text);
    let n = leading_space(&chars);
    string_of(&chars, n, chars.len())
}

/// `text` without the white space that it ends with.
pub fn without_trailing_space(text: &str) -> (trimmed: String)
    ensures
        trimmed@ == trim_end(text@),
{
    let chars = chars_of(text);
    let end = trimmed_end(&chars, 0);
    assert(chars@.skip(0) == chars@);
    string_of(&chars, 0, end)
}

/// `text` without the white space at both its ends.
pub fn without_outer_space(text: &str) -> (trimmed: String)
    ensures
        trimmed@ == trim(text@),
{
    let chars = chars_of(text);
    let n = leading_space(&chars);
    let end = trimmed_end(&chars, n);
    string_of(&chars, n, end)
}

/// What stands before the first `c` of `text`, and what stands behind it if
/// `text` holds a `c`.
pub fn split_once(text: &str, c: char) -> (parts: (String, Option<String>))
    ensures
        parts.0@ == text@.take(find(text@, c)),
        match parts.1 {
            Some(rest) => find(text@, c) < text@.len() && rest@ == text@.skip(find(text@, c) + 1),
            None => find(text@, c) == text@.len(),
        },
{
    let chars = chars_of(text);
    let at = find_from(&chars, 0, c);
    assert(chars@.skip(0) == chars@);
    assert(chars@.subrange(0, at as int) == chars@.take(at as int));
    let first = string_of(&chars, 0, at);
    if at < chars.len() {
        let rest = string_of(&chars, at + 1, chars.len());
        (first, Some(rest))
    } else {
        (first, None)
    }
}

/// The decimal digit of a number below ten.
pub open spec fn digit(n: int) -> char {
    ('0' as u32 + n) as char
}

/// A natural number in decimal digits.
pub open spec fn decimal(n: nat) -> Seq<char>
    decreases n,
{
    if n < 10 {
        seq![digit(n as int)]
    } else {
        decimal(n / 10).push(digit((n % 10) as int))
    }
}

/// An integer in decimal digits, behind a minus sign if it is negative.
pub open spec fn integer(n: int) -> Seq<char> {
    if n < 0 {
        seq!['-'] + decimal((-n) as nat)
    } else {
        decimal(n as nat)
    }
}

/// Appends `n` in decimal digits.
pub fn push_decimal(text: &mut String, n: u64)
    ensures
        final(text)@ == old(text)@ + decimal(n as nat),
    decreases n,
{
    if n >= 10 {
        push_decimal(text, n / 10);
    }
    let d: u8 = (n % 10) as u8;
    let c: char = (48u8 + d) as char;
    assert(c == digit((n % 10) as int));
    text.push(c);
    assert(text@ == old(text)@ + decimal(n as nat));
}

/// Appends `n` in decimal digits, behind a minus sign if it is negative.
pub fn push_integer(text: &mut String, n: i32)
    ensures
        final(text)@ == old(text)@ + integer(n as int),
{
    if n < 0 {
        text.push('-');
        push_decimal(text, (-(n as i64)) as u64);
        assert(text@ == old(text)@ + integer(n as int));
    } else {
        push_decimal(text, n as u64);
    }
}

/// Whether `c` is a decimal digit.
pub open spec fn is_digit(c: char) -> bool {
    '0' <= c <= '9'
}

/// The number that a sequence of decimal digits stands for.
pub open spec fn number(s: Seq<char>) -> nat
    decreases s.len(),
{
    if s.len() == 0 {
        0
    } else {
        number(s.drop_last()) * 10 + (s.last() as u32 - '0' as u32) as nat
    }
}

/// `s` without a plus sign at its start.
pub open spec fn unsigned(s: Seq<char>) -> Seq<char> {
    if s.len() > 0 && s[0] == '+' {
        s.skip(1)
    } else {
        s
    }
}

/// The `usize` that `s` is written for: one or more decimal digits, which may
/// follow a plus sign, for a number that fits.
pub open spec fn read_usize(s: Seq<char>) -> Option<usize> {
    let digits = unsigned(s);
    if digits.len() > 0 && (forall|i: int| 0 <= i < digits.len() ==> is_digit(#[trigger] digits[i]))
        && number(digits) <= usize::MAX {
        Some(number(digits) as usize)
    } else {
        None
    }
}

/// The number of a prefix is at most that of the whole.
proof fn lemma_number_prefix(s: Seq<char>, n: int)
    requires
        0 <= n <= s.len(),
    ensures
        number(s.take(n)) <= number(s),
    decreases s.len(),
{
    if n < s.len() {
        lemma_number_prefix(s.drop_last(), n);
        assert(s.drop_last().take(n) == s.take(n));
    } else {
        assert(s.take(n) == s);
    }
}

/// Reads a `usize`.
pub fn parse_usize(text: &str) -> (value: Option<usize>)
    ensures
        value == read_usize(text@),
{
    let chars = chars_of(text);
    let from: usize = if chars.len() > 0 && chars[0] == '+' {
        1
    } else {
        0
    };
    let ghost digits = unsigned(text@);
    assert(digits == chars@.skip(from as int));
    if from == chars.len() {
        return None;
    }
    let mut value: usize = 0;
    let mut i: usize = from;
    while i < chars.len()
        invariant
            from <= i <= chars@.len(),
            digits == unsigned(text@),
            digits == chars@.skip(from as int),
            value == number(digits.take(i - from)),
            forall|j: int| 0 <= j < i - from ==> is_digit(#[trigger] digits[j]),
        decreases chars@.len() - i,
    {
        let c: char = chars[i];
        assert(digits[i - from] == c);
        if c < '0' || '9' < c {
            return None;
        }
        let d: usize = (c as u32 - '0' as u32) as usize;
        proof {
            let n = i - from + 1;
            assert(digits.take(n).drop_last() == digits.take(n - 1));
            assert(digits.take(n).last() == c);
            lemma_number_prefix(digits, n);
        }
        value = match value.checked_mul(10) {
            Some(tens) => match tens.checked_add(d) {
                Some(sum) => sum,
                None => {
                    return None;
                },
            },
            None => {
                return None;
            },
        };
        i = i + 1;
    }
    assert(digits.take(digits.len() as int) == digits);
    Some(value)
}

/// Whether `s` begins with `start`.
pub open spec fn starts_with(s: Seq<char>, start: Seq<char>) -> bool {
    start.len() <= s.len() && s.take(start.len() as int) == start
}

/// `s` with each occurrence of `from` replaced by `to`: occurrences are taken
/// from the left and do not overlap, and what was put in is not searched.
pub open spec fn replace(s: Seq<char>, from: Seq<char>, to: Seq<char>) -> Seq<char>
    decreases s.len(),
{
    if s.len() == 0 || from.len() == 0 {
        s
    } else if starts_with(s, from) {
        to + replace(s.skip(from.len() as int), from, to)
    } else {
        seq![s[0]] + replace(s.skip(1), from, to)
    }
}

/// Whether `part` stands in `chars` at `at`.
fn stands_at(chars: &Vec<char>, at: usize, part: &Vec<char>) -> (stands: bool)
    requires
        at <= chars@.len(),
    ensures
        stands == starts_with(chars@.skip(at as int), part@),
{
    let n: usize = chars.len();
    if part.len() > n - at {
        return false;
    }
    let ghost rest = chars@.skip(at as int);
    let mut i: usize = 0;
    while i < part.len()
        invariant
            i <= part@.len(),
            n == chars@.len(),
            at + part@.len() <= n,
            rest == chars@.skip(at as int),
            forall|j: int| 0 <= j < i ==> rest[j] == part@[j],
        decreases part@.len() - i,
    {
        if chars[at + i] != part[i] {
            assert(rest.take(part@.len() as int)[i as int] != part@[i as int]);
            return false;
        }
        i = i + 1;
    }
    assert(rest.take(part@.len() as int) == part@);
    true
}

/// `text` with each occurrence of `from` replaced by `to`.
pub fn replaced(text: &str, from: &str, to: &str) -> (result: String)
    requires
        from@.len() > 0,
    ensures
        result@ == replace(text@, from@, to@),
{
    let chars = chars_of(text);
    let part = chars_of(from);
    let mut result = String::new();
    let mut i: usize = 0;
    assert(chars@.skip(0) == chars@);
    while i < chars.len()
        invariant
            i <= chars@.len(),
            chars@ == text@,
            part@ == from@,
            from@.len() > 0,
            replace(text@, from@, to@) == result@ + replace(chars@.skip(i as int), from@, to@),
        decreases chars@.len() - i,
    {
        let ghost rest = chars@.skip(i as int);
        let ghost before = result@;
        if stands_at(&chars, i, &part) {
            result.append(to);
            assert(rest.skip(from@.len() as int) == chars@.skip(i + from@.len()));
            i = i + part.len();
        } else {
            result.push(chars[i]);
            assert(rest.skip(1) == chars@.skip(i + 1));
            assert(before + (seq![rest[0]] + replace(rest.skip(1), from@, to@)) == before.push(
                rest[0],
            ) + replace(rest.skip(1), from@, to@));
            i = i + 1;
        }
    }
    result
}

/// The number of bytes of the UTF-8 encoding of `s`.
pub open spec fn byte_len(s: Seq<char>) -> nat {
    encode_utf8(s).len()
}

/// The number of bytes of `text`.
pub fn len_of(text: &str) -> (n: usize)
    ensures
        n == byte_len(text@),
{
    text.as_bytes().len()
}

/// Whether the byte offset `at` falls between two characters of `s`, at its
/// start or at its end.
pub open spec fn on_boundary(s: Seq<char>, at: int) -> bool {
    is_char_boundary(encode_utf8(s), at)
}

/// The part of `s` from the byte offset `start` up to `end`. It is empty if
/// these are no two places of `s` in their order.
pub open spec fn byte_slice(s: Seq<char>, start: int, end: int) -> Seq<char> {
    if start <= end && on_boundary(s, start) && on_boundary(s, end) {
        decode_utf8(encode_utf8(s).subrange(start, end))
    } else {
        Seq::empty()
    }
}

/// The part of `text` from the byte offset `start` up to `end`, or an empty
/// text if there is no such part.
pub fn slice_of(text: &str, start: usize, end: usize) -> (part: String)
    ensures
        part@ == byte_slice(text@, start as int, end as int),
{
    if start <= end && text.is_char_boundary(start) && text.is_char_boundary(end) {
        let ghost bytes = encode_utf8(text@);
        proof {
            encode_utf8_valid_utf8(text@);
            lemma_boundary_in_range(bytes, end as int);
            valid_utf8_split(bytes, end as int);
            lemma_boundary_of_prefix(bytes, start as int, end as int);
        }
        let (head, _) = text.split_at(end);
        let (_, part) = head.split_at(start);
        proof {
            assert(encode_utf8(part@) == bytes.subrange(start as int, end as int));
            encode_utf8_decode_utf8(part@);
        }
        part.to_owned()
    } else {
        String::new()
    }
}

/// A boundary lies within the bytes.
pub proof fn lemma_boundary_in_range(bytes: Seq<u8>, at: int)
    requires
        valid_utf8(bytes),
        is_char_boundary(bytes, at),
    ensures
        0 <= at <= bytes.len(),
{
}

/// A boundary is also one of each prefix that ends at a boundary behind it.
proof fn lemma_boundary_of_prefix(bytes: Seq<u8>, at: int, end: int)
    requires
        valid_utf8(bytes),
        is_char_boundary(bytes, at),
        is_char_boundary(bytes, end),
        at <= end,
    ensures
        is_char_boundary(bytes.subrange(0, end), at),
{
    lemma_boundary_in_range(bytes, at);
    lemma_boundary_in_range(bytes, end);
    valid_utf8_split(bytes, end);
    let prefix = bytes.subrange(0, end);
    if at < end {
        assert(prefix[at] == bytes[at]);
        is_char_boundary_iff_not_is_continuation_byte(bytes, at);
        is_char_boundary_iff_not_is_continuation_byte(prefix, at);
    } else {
        is_char_boundary_start_end_of_seq(prefix);
    }
}

/// The encoding of two texts in a row is their encodings in a row.
pub proof fn lemma_encode_concat(a: Seq<char>, b: Seq<char>)
    ensures
        encode_utf8(a + b) == encode_utf8(a) + encode_utf8(b),
    decreases a.len(),
{
    if a.len() == 0 {
        assert(a + b == b);
        assert(encode_utf8(a) + encode_utf8(b) == encode_utf8(b));
    } else {
        assert((a + b).drop_first() == a.drop_first() + b);
        lemma_encode_concat(a.drop_first(), b);
        let first = encode_scalar(a[0] as u32);
        assert(first + (encode_utf8(a.drop_first()) + encode_utf8(b)) == (first + encode_utf8(
            a.drop_first(),
        )) + encode_utf8(b));
    }
}

/// The end of the first of two texts in a row is a boundary between them.
pub proof fn lemma_concat_boundary(a: Seq<char>, b: Seq<char>)
    ensures
        on_boundary(a + b, byte_len(a) as int),
        encode_utf8(a + b).subrange(0, byte_len(a) as int) == encode_utf8(a),
        encode_utf8(a + b).subrange(byte_len(a) as int, byte_len(a + b) as int) == encode_utf8(b),
        byte_len(a + b) == byte_len(a) + byte_len(b),
    decreases a.len(),
{
    lemma_encode_concat(a, b);
    let bytes = encode_utf8(a + b);
    encode_utf8_valid_utf8(a + b);
    encode_utf8_valid_utf8(b);
    if b.len() == 0 {
        is_char_boundary_start_end_of_seq(bytes);
    } else {
        let at = byte_len(a) as int;
        encode_utf8_first_scalar(b);
        is_char_boundary_start_end_of_seq(encode_utf8(b));
        assert(bytes[at] == encode_utf8(b)[0]);
        is_char_boundary_iff_not_is_continuation_byte(encode_utf8(b), 0);
        is_char_boundary_iff_not_is_continuation_byte(bytes, at);
    }
    assert(bytes.subrange(0, byte_len(a) as int) == encode_utf8(a));
    assert(bytes.subrange(byte_len(a) as int, byte_len(a + b) as int) == encode_utf8(b));
}

/// The byte offsets of a part of a text name that part.
pub proof fn law_offsets_name_part(a: Seq<char>, part: Seq<char>, b: Seq<char>)
    ensures
        byte_slice(
            a + part + b,
            byte_len(a) as int,
            (byte_len(a) + byte_len(part)) as int,
        ) == part,
{
    let s = a + part + b;
    lemma_concat_boundary(a + part, b);
    lemma_concat_boundary(a, part);
    lemma_concat_boundary(a, part + b);
    assert(a + (part + b) == s);
    let bytes = encode_utf8(s);
    let start = byte_len(a) as int;
    let end = start + byte_len(part);
    assert(bytes.subrange(start, end) == bytes.subrange(0, end).subrange(start, end));
    encode_utf8_decode_utf8(part);
}

/// A part that byte offsets name has as many bytes as lie between them.
pub proof fn lemma_byte_slice_len(s: Seq<char>, start: int, end: int)
    requires
        start <= end,
        on_boundary(s, start),
        on_boundary(s, end),
    ensures
        byte_len(byte_slice(s, start, end)) == end - start,
{
    let bytes = encode_utf8(s);
    encode_utf8_valid_utf8(s);
    lemma_boundary_in_range(bytes, start);
    lemma_boundary_in_range(bytes, end);
    valid_utf8_split(bytes, end);
    let prefix = bytes.subrange(0, end);
    lemma_boundary_of_prefix(bytes, start, end);
    valid_utf8_split(prefix, start);
    assert(prefix.subrange(start, prefix.len() as int) == bytes.subrange(start, end));
    decode_utf8_encode_utf8(bytes.subrange(start, end));
}

/// Where a text lacks the first character of what is to be replaced, it stays
/// as it is.
pub proof fn law_replace_absent(s: Seq<char>, from: Seq<char>, to: Seq<char>)
    requires
        from.len() > 0,
        !s.contains(from[0]),
    ensures
        replace(s, from, to) == s,
    decreases s.len(),
{
    if s.len() > 0 {
        assert(s.contains(s[0]));
        if starts_with(s, from) {
            assert(s.take(from.len() as int)[0] == s[0]);
        }
        let rest = s.skip(1);
        if rest.contains(from[0]) {
            let i = choose|i: int| 0 <= i < rest.len() && rest[i] == from[0];
            assert(s[i + 1] == from[0]);
        }
        law_replace_absent(rest, from, to);
        assert(seq![s[0]] + rest == s);
    }
}

/// What is to be replaced gives way to what is put there, and the text before
/// it and behind it stays, if these lack the first character of it.
pub proof fn law_replace_once(
    before: Seq<char>,
    after: Seq<char>,
    from: Seq<char>,
    to: Seq<char>,
)
    requires
        from.len() > 0,
        !before.contains(from[0]),
        !after.contains(from[0]),
    ensures
        replace(before + from + after, from, to) == before + to + after,
    decreases before.len(),
{
    let s = before + from + after;
    if before.len() == 0 {
        assert(s.take(from.len() as int) == from);
        assert(s.skip(from.len() as int) == after);
        law_replace_absent(after, from, to);
        assert(before + to + after == to + after);
    } else {
        assert(before.contains(before[0]));
        assert(s[0] == before[0]);
        if starts_with(s, from) {
            assert(s.take(from.len() as int)[0] == s[0]);
        }
        let rest = before.skip(1);
        if rest.contains(from[0]) {
            let i = choose|i: int| 0 <= i < rest.len() && rest[i] == from[0];
            assert(before[i + 1] == from[0]);
        }
        law_replace_once(rest, after, from, to);
        assert(s.skip(1) == rest + from + after);
        assert(seq![s[0]] + (rest + to + after) == before + to + after);
    }
}

} // verus!
