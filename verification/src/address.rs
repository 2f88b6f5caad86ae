//! IPv4 addresses in dotted-quad notation.
//!
//! The accepted notation is the strict one: four decimal octets separated by
//! single dots, each of one to three digits, none above 255 and none with a
//! leading zero. Nothing may come before, between or after them.

use vstd::prelude::*;
use vstd::string::StrSliceExecFns;

verus! {

/// An IPv4 address, as its four octets in network order.
#[derive(Clone, Copy, Debug, PartialEq, Eq, Structural)]
pub struct Ipv4Address(pub u8, pub u8, pub u8, pub u8);

/// Whether `c` is one of the digits `0` to `9`.
pub open spec fn is_digit(c: char) -> bool {
    '0' <= c <= '9'
}

/// The number that a string of decimal digits denotes.
pub open spec fn decimal(digits: Seq<char>) -> int
    decreases digits.len(),
{
    if digits.len() == 0 {
        0
    } else {
        10 * decimal(digits.drop_last()) + (digits.last() as int - '0' as int)
    }
}

/// The octet that `text` denotes: one to three digits, without a leading zero
/// unless the text is `0` itself, and with a value of at most 255.
pub open spec fn octet(text: Seq<char>) -> Option<u8> {
    if 1 <= text.len() <= 3 && (forall|i: int| 0 <= i < text.len() ==> is_digit(#[trigger] text[i]))
        && (text.len() > 1 ==> text[0] != '0') && decimal(text) <= 255 {
        Some(decimal(text) as u8)
    } else {
        None
    }
}

/// Whether `text` is four octets with dots at the positions `i`, `j` and `k`.
pub open spec fn is_quad_at(text: Seq<char>, i: int, j: int, k: int) -> bool {
    &&& 0 <= i < j < k < text.len()
    &&& text[i] == '.'
    &&& text[j] == '.'
    &&& text[k] == '.'
    &&& octet(text.subrange(0, i)) is Some
    &&& octet(text.subrange(i + 1, j)) is Some
    &&& octet(text.subrange(j + 1, k)) is Some
    &&& octet(text.subrange(k + 1, text.len() as int)) is Some
}

/// The address that `text` denotes, if it is a dotted quad.
pub open spec fn dotted_quad(text: Seq<char>) -> Option<Ipv4Address> {
    if exists|i: int, j: int, k: int| is_quad_at(text, i, j, k) {
        let (i, j, k) = choose|i: int, j: int, k: int| is_quad_at(text, i, j, k);
        Some(
            Ipv4Address(
                octet(text.subrange(0, i))->0,
                octet(text.subrange(i + 1, j))->0,
                octet(text.subrange(j + 1, k))->0,
                octet(text.subrange(k + 1, text.len() as int))->0,
            ),
        )
    } else {
        None
    }
}

/// Whether `at` is the first position from `from` on that holds a dot, or the
/// length of `text` if no dot follows.
pub open spec fn is_next_dot(text: Seq<char>, from: int, at: int) -> bool {
    &&& from <= at <= text.len()
    &&& at < text.len() ==> text[at] == '.'
    &&& forall|t: int| from <= t < at ==> #[trigger] text[t] != '.'
}

/// A text has only one reading as a dotted quad: its dots are the first three
/// dots of the text.
pub proof fn lemma_quad_dots_are_first(
    text: Seq<char>,
    i: int,
    j: int,
    k: int,
    di: int,
    dj: int,
    dk: int,
)
    requires
        is_quad_at(text, i, j, k),
        is_next_dot(text, 0, di),
        di < text.len() ==> is_next_dot(text, di + 1, dj),
        di < text.len() && dj < text.len() ==> is_next_dot(text, dj + 1, dk),
    ensures
        di == i,
        dj == j,
        dk == k,
{
    let a = text.subrange(0, i);
    let b = text.subrange(i + 1, j);
    let c = text.subrange(j + 1, k);
    assert forall|t: int| 0 <= t < i implies text[t] != '.' by {
        assert(is_digit(a[t]));
    }
    assert forall|t: int| i + 1 <= t < j implies text[t] != '.' by {
        assert(is_digit(b[t - (i + 1)]));
    }
    assert forall|t: int| j + 1 <= t < k implies text[t] != '.' by {
        assert(is_digit(c[t - (j + 1)]));
    }
}

/// A dotted quad has at most fifteen characters.
pub proof fn lemma_quad_is_short(text: Seq<char>)
    requires
        dotted_quad(text) is Some,
    ensures
        7 <= text.len() <= 15,
{
    let (i, j, k) = choose|i: int, j: int, k: int| is_quad_at(text, i, j, k);
}

/// The first position from `from` on that holds a dot; `len` if none does.
fn next_dot(text: &str, from: usize, len: usize) -> (at: usize)
    requires
        len == text@.len(),
        from <= len,
    ensures
        is_next_dot(text@, from as int, at as int),
{
    let mut at: usize = from;
    while at < len
        invariant
            from <= at <= len,
            len == text@.len(),
            forall|t: int| from <= t < at ==> #[trigger] text@[t] != '.',
        decreases len - at,
    {
        if text.get_char(at) == '.' {
            return at;
        }
        at += 1;
    }
    at
}

/// Reads the characters of `text` from `from` up to `to` as one octet.
fn parse_octet(text: &str, from: usize, to: usize) -> (value: Option<u8>)
    requires
        from <= to <= text@.len(),
    ensures
        value == octet(text@.subrange(from as int, to as int)),
{
    let ghost field = text@.subrange(from as int, to as int);
    if to - from < 1 || to - from > 3 {
        return None;
    }
    if to - from > 1 && text.get_char(from) == '0' {
        return None;
    }
    let mut value: u16 = 0;
    let mut at: usize = from;
    while at < to
        invariant
            from <= at <= to <= text@.len(),
            to - from <= 3,
            field == text@.subrange(from as int, to as int),
            forall|t: int| 0 <= t < at - from ==> is_digit(#[trigger] field[t]),
            value == decimal(field.take(at - from)),
            0 <= value < 1000,
            at - from <= 2 ==> value < 100,
            at - from <= 1 ==> value < 10,
            at - from <= 0 ==> value == 0,
        decreases to - at,
    {
        let c = text.get_char(at);
        if !('0' <= c && c <= '9') {
            assert(!is_digit(field[at - from]));
            return None;
        }
        assert(field.take(at - from + 1).drop_last() =~= field.take(at - from));
        value = value * 10 + (c as u32 - '0' as u32) as u16;
        at += 1;
    }
    assert(field.take(to - from) =~= field);
    if value > 255 {
        return None;
    }
    Some(value as u8)
}

/// Reads an IPv4 address in dotted-quad notation.
pub fn parse_ipv4(text: &str) -> (address: Option<Ipv4Address>)
    ensures
        address == dotted_quad(text@),
{
    let len: usize = text.unicode_len();
    if len > 15 {
        proof {
            if dotted_quad(text@) is Some {
                lemma_quad_is_short(text@);
            }
        }
        return None;
    }
    let i: usize = next_dot(text, 0, len);
    let j: usize = if i < len { next_dot(text, i + 1, len) } else { len };
    let k: usize = if j < len { next_dot(text, j + 1, len) } else { len };
    proof {
        if exists|i: int, j: int, k: int| is_quad_at(text@, i, j, k) {
            let (qi, qj, qk) = choose|i: int, j: int, k: int| is_quad_at(text@, i, j, k);
            lemma_quad_dots_are_first(text@, qi, qj, qk, i as int, j as int, k as int);
        }
    }
    if k >= len {
        return None;
    }
    let a = parse_octet(text, 0, i);
    let b = parse_octet(text, i + 1, j);
    let c = parse_octet(text, j + 1, k);
    let d = parse_octet(text, k + 1, len);
    match (a, b, c, d) {
        (Some(a), Some(b), Some(c), Some(d)) => {
            assert(is_quad_at(text@, i as int, j as int, k as int));
            Some(Ipv4Address(a, b, c, d))
        },
        _ => None,
    }
}

} // verus!
