//! What the operations on text come to, whatever the text.
use crate::text::{
    byte_len, byte_slice, decimal, digit, integer, is_digit, is_space, lemma_boundary_in_range,
    lemma_find_at, lemma_trim_end, lemma_trim_start, lines, number, read_usize, replace, trim,
    trim_end, trim_start,
};
use vstd::prelude::*;
use vstd::utf8::*;

verus! {

/// Whether all of `s` is white space.
pub open spec fn all_space(s: Seq<char>) -> bool {
    forall|i: int| 0 <= i < s.len() ==> is_space(#[trigger] s[i])
}

/// Whether `s` neither begins nor ends with white space.
pub open spec fn tight(s: Seq<char>) -> bool {
    s.len() > 0 ==> !is_space(s[0]) && !is_space(s[s.len() - 1])
}

/// Trimming takes the white space at an end, all of it and nothing else.
pub proof fn law_trim_takes_outer_space(a: Seq<char>, inner: Seq<char>, b: Seq<char>)
    requires
        all_space(a),
        tight(inner),
        all_space(b),
    ensures
        trim(a + inner + b) == inner,
        inner.len() > 0 ==> trim_start(a + inner + b) == inner + b,
        inner.len() > 0 ==> trim_end(a + inner + b) == a + inner,
        inner.len() == 0 ==> trim_start(a + inner + b) == inner,
        inner.len() == 0 ==> trim_end(a + inner + b) == inner,
{
    let s = a + inner + b;
    let n = a.len() as int;
    let m = n + inner.len();
    assert forall|i: int| 0 <= i < n implies is_space(s[i]) by {
        assert(s[i] == a[i]);
    }
    assert forall|i: int| m <= i < s.len() implies is_space(s[i]) by {
        assert(s[i] == b[i - m]);
    }
    if inner.len() > 0 {
        assert(s[n] == inner[0]);
        assert(s[m - 1] == inner[inner.len() - 1]);
        lemma_trim_start(s, n);
        assert(s.skip(n) == inner + b);
        lemma_trim_end(s, m);
        assert(s.take(m) == a + inner);
        let t = inner + b;
        assert forall|i: int| inner.len() <= i < t.len() implies is_space(t[i]) by {
            assert(t[i] == b[i - inner.len()]);
        }
        lemma_trim_end(t, inner.len() as int);
        assert(t.take(inner.len() as int) == inner);
    } else {
        lemma_trim_start(s, s.len() as int);
        assert(s.skip(s.len() as int) == inner);
        lemma_trim_end(s, 0);
        assert(s.take(0) == inner);
        assert(trim_end(inner) == inner);
    }
}

/// The texts of `parts` in a row, each with a line feed behind it.
pub open spec fn ended(parts: Seq<Seq<char>>) -> Seq<char>
    decreases parts.len(),
{
    if parts.len() == 0 {
        Seq::empty()
    } else {
        ended(parts.drop_last()) + parts.last() + seq!['\n']
    }
}

/// Whether no part holds a line feed.
pub open spec fn unbroken(parts: Seq<Seq<char>>) -> bool {
    forall|i: int| 0 <= i < parts.len() ==> !(#[trigger] parts[i]).contains('\n')
}

proof fn lemma_ended_front(first: Seq<char>, parts: Seq<Seq<char>>)
    ensures
        ended(seq![first] + parts) == first + seq!['\n'] + ended(parts),
    decreases parts.len(),
{
    let all = seq![first] + parts;
    if parts.len() == 0 {
        assert(all.drop_last() == Seq::<Seq<char>>::empty());
        assert(ended(all.drop_last()) == Seq::<char>::empty());
        assert(all.last() == first);
        assert(ended(all) == first + seq!['\n'] + ended(parts));
    } else {
        assert(all.drop_last() == seq![first] + parts.drop_last());
        assert(all.last() == parts.last());
        lemma_ended_front(first, parts.drop_last());
        assert(ended(all) == first + seq!['\n'] + ended(parts));
    }
}

/// The texts of two lists in a row.
pub proof fn lemma_ended_concat(a: Seq<Seq<char>>, b: Seq<Seq<char>>)
    ensures
        ended(a + b) == ended(a) + ended(b),
    decreases b.len(),
{
    if b.len() == 0 {
        assert(a + b == a);
        assert(ended(a) + ended(b) == ended(a));
    } else {
        assert((a + b).drop_last() == a + b.drop_last());
        assert((a + b).last() == b.last());
        lemma_ended_concat(a, b.drop_last());
        assert(ended(a + b) == ended(a) + ended(b));
    }
}

/// The lines of a text are what stands between its line feeds. What stands
/// behind the last one is a line too, unless there is nothing.
pub proof fn law_lines_stand_between_feeds(parts: Seq<Seq<char>>, last: Seq<char>)
    requires
        unbroken(parts),
        !last.contains('\n'),
    ensures
        lines(ended(parts) + last) == if last.len() > 0 {
            parts.push(last)
        } else {
            parts
        },
    decreases parts.len(),
{
    let s = ended(parts) + last;
    if parts.len() == 0 {
        assert(s == last);
        if last.len() > 0 {
            assert forall|i: int| 0 <= i < last.len() implies last[i] != '\n' by {
                assert(last.contains(last[i]));
            }
            lemma_find_at(last, '\n', last.len() as int);
            assert(lines(s) == parts.push(last));
        } else {
            assert(lines(s) == parts);
        }
    } else {
        let first = parts[0];
        let rest = parts.skip(1);
        assert(parts == seq![first] + rest);
        lemma_ended_front(first, rest);
        assert forall|i: int| 0 <= i < rest.len() implies !(#[trigger] rest[i]).contains('\n') by {
            assert(rest[i] == parts[i + 1]);
        }
        law_lines_stand_between_feeds(rest, last);
        let n = first.len() as int;
        assert forall|i: int| 0 <= i < n implies s[i] != '\n' by {
            assert(s[i] == first[i]);
            assert(first.contains(first[i]));
        }
        assert(s[n] == '\n');
        lemma_find_at(s, '\n', n);
        assert(s.take(n) == first);
        assert(s.skip(n + 1) == ended(rest) + last);
        if last.len() > 0 {
            assert(seq![first] + rest.push(last) == parts.push(last));
        }
    }
}

/// The digits of a number stand for it, each for ten times what it would one
/// place to the right, and no number but 0 begins with a 0.
pub proof fn law_decimal_stands_for_number(n: nat)
    ensures
        number(decimal(n)) == n,
        decimal(n).len() > 0,
        forall|i: int| 0 <= i < decimal(n).len() ==> '0' <= #[trigger] decimal(n)[i] <= '9',
        n > 0 ==> decimal(n)[0] != '0',
        n == 0 ==> decimal(n) == seq!['0'],
    decreases n,
{
    let s = decimal(n);
    if n < 10 {
        assert(s.drop_last() == Seq::<char>::empty());
        assert(number(s.drop_last()) == 0);
        assert(s.last() == digit(n as int));
        assert(digit(0) == '0');
        assert(n == 0 ==> s =~= seq!['0']);
    } else {
        law_decimal_stands_for_number(n / 10);
        assert(s.drop_last() == decimal(n / 10));
        assert(s.last() == digit((n % 10) as int));
        assert forall|i: int| 0 <= i < s.len() implies '0' <= #[trigger] s[i] <= '9' by {
            if i < s.len() - 1 {
                assert(s[i] == decimal(n / 10)[i]);
            }
        }
        assert(s[0] == decimal(n / 10)[0]);
    }
}

/// A digit behind others makes their number ten times as large and adds
/// itself; the ten digits stand for 0 to 9.
pub proof fn law_place_value(s: Seq<char>, c: char)
    ensures
        number(Seq::empty()) == 0,
        '0' <= c <= '9' ==> number(s.push(c)) == 10 * number(s) + (c as u32 - '0' as u32),
{
    assert(s.push(c).drop_last() == s);
}

/// A negative number is written as the number without its sign behind a minus
/// sign, and others without a sign.
pub proof fn law_sign(n: int)
    ensures
        n < 0 ==> integer(n) == seq!['-'] + decimal((-n) as nat),
        n >= 0 ==> integer(n) == decimal(n as nat),
{
}

/// Whether `s` is one or more decimal digits.
pub open spec fn digits(s: Seq<char>) -> bool {
    &&& s.len() > 0
    &&& forall|i: int| 0 <= i < s.len() ==> '0' <= #[trigger] s[i] <= '9'
}

/// Digits read as their number if it fits, with or without one plus sign
/// before them, and nothing else reads as a number.
pub proof fn law_digits_read(s: Seq<char>)
    ensures
        digits(s) && number(s) <= usize::MAX ==> read_usize(s) == Some(number(s) as usize)
            && read_usize(seq!['+'] + s) == Some(number(s) as usize),
        digits(s) && number(s) > usize::MAX ==> read_usize(s) is None && read_usize(
            seq!['+'] + s,
        ) is None,
        !digits(s) ==> read_usize(seq!['+'] + s) is None,
        !digits(s) && !(s.len() > 0 && s[0] == '+') ==> read_usize(s) is None,
{
    assert((seq!['+'] + s).skip(1) == s);
    if s.len() > 0 {
        if digits(s) {
            assert(s[0] != '+');
            assert forall|i: int| 0 <= i < s.len() implies is_digit(#[trigger] s[i]) by {}
        } else {
            let i = choose|i: int| 0 <= i < s.len() && !('0' <= #[trigger] s[i] <= '9');
            assert(!is_digit(s[i]));
        }
    }
}

/// Whether `from` stands in `s` at `p`.
pub open spec fn stands(s: Seq<char>, p: int, from: Seq<char>) -> bool {
    0 <= p && p + from.len() <= s.len() && s.subrange(p, p + from.len()) == from
}

/// Replacement puts `to` in the place of the first `from`, keeps what stands
/// before that, and goes on behind it.
pub proof fn law_replace_first(s: Seq<char>, from: Seq<char>, to: Seq<char>, p: int)
    requires
        from.len() > 0,
        stands(s, p, from),
        forall|q: int| 0 <= q < p ==> !stands(s, q, from),
    ensures
        replace(s, from, to) == s.take(p) + to + replace(s.skip(p + from.len()), from, to),
    decreases p,
{
    if p == 0 {
        assert(s.take(from.len() as int) == s.subrange(0, from.len() as int));
        assert(s.take(0) + to == to);
    } else {
        let rest = s.skip(1);
        assert(!stands(s, 0, from));
        assert(from.len() <= s.len() ==> s.take(from.len() as int) == s.subrange(
            0,
            from.len() as int,
        ));
        assert(rest.subrange(p - 1, p - 1 + from.len()) == s.subrange(p, p + from.len()));
        assert forall|q: int| 0 <= q < p - 1 implies !stands(rest, q, from) by {
            assert(!stands(s, q + 1, from));
            if q + from.len() <= rest.len() {
                assert(rest.subrange(q, q + from.len()) == s.subrange(
                    q + 1,
                    q + 1 + from.len(),
                ));
            }
        }
        law_replace_first(rest, from, to, p - 1);
        assert(rest.skip(p - 1 + from.len()) == s.skip(p + from.len()));
        let tail = replace(s.skip(p + from.len()), from, to);
        assert(seq![s[0]] + (rest.take(p - 1) + to + tail) == s.take(p) + to + tail);
    }
}

/// Where `from` stands nowhere, replacement changes nothing.
pub proof fn law_replace_nothing(s: Seq<char>, from: Seq<char>, to: Seq<char>)
    requires
        from.len() > 0,
        forall|q: int| 0 <= q < s.len() ==> !stands(s, q, from),
    ensures
        replace(s, from, to) == s,
    decreases s.len(),
{
    if s.len() > 0 {
        let rest = s.skip(1);
        assert(!stands(s, 0, from));
        assert(from.len() <= s.len() ==> s.take(from.len() as int) == s.subrange(
            0,
            from.len() as int,
        ));
        assert forall|q: int| 0 <= q < rest.len() implies !stands(rest, q, from) by {
            assert(!stands(s, q + 1, from));
            if q + from.len() <= rest.len() {
                assert(rest.subrange(q, q + from.len()) == s.subrange(
                    q + 1,
                    q + 1 + from.len(),
                ));
            }
        }
        law_replace_nothing(rest, from, to);
        assert(seq![s[0]] + rest == s);
    }
}

/// A part that is not empty stands in the text between the byte offsets that
/// name it. So offsets that name no part give an empty one.
pub proof fn law_part_stands_at_offsets(s: Seq<char>, start: int, end: int) -> (ab: (
    Seq<char>,
    Seq<char>,
))
    requires
        byte_slice(s, start, end).len() > 0,
    ensures
        s == ab.0 + byte_slice(s, start, end) + ab.1,
        byte_len(ab.0) == start,
        byte_len(ab.0 + byte_slice(s, start, end)) == end,
{
    let bytes = encode_utf8(s);
    encode_utf8_valid_utf8(s);
    encode_utf8_decode_utf8(s);
    lemma_boundary_in_range(bytes, start);
    lemma_boundary_in_range(bytes, end);
    valid_utf8_split(bytes, end);
    decode_utf8_split(bytes, end);
    let head = bytes.subrange(0, end);
    let b = decode_utf8(bytes.subrange(end, bytes.len() as int));
    if start < end {
        assert(head[start] == bytes[start]);
        is_char_boundary_iff_not_is_continuation_byte(bytes, start);
        is_char_boundary_iff_not_is_continuation_byte(head, start);
    } else {
        is_char_boundary_start_end_of_seq(head);
    }
    valid_utf8_split(head, start);
    decode_utf8_split(head, start);
    assert(head.subrange(0, start) == bytes.subrange(0, start));
    assert(head.subrange(start, head.len() as int) == bytes.subrange(start, end));
    let a = decode_utf8(bytes.subrange(0, start));
    decode_utf8_encode_utf8(bytes.subrange(0, start));
    decode_utf8_encode_utf8(head);
    assert(decode_utf8(head) == a + byte_slice(s, start, end));
    (a, b)
}

} // verus!
