//! Text: from and to UTF-8, and numbers as digits.

use vstd::prelude::*;
use vstd::utf8::{decode_utf8, valid_utf8};

verus! {

/// The longest prefix of at most `n` bytes that is UTF-8.
pub open spec fn utf8_prefix_len(bytes: Seq<u8>, n: nat) -> nat
    decreases n,
{
    if n == 0 || valid_utf8(bytes.take(n as int)) {
        n
    } else {
        utf8_prefix_len(bytes, (n - 1) as nat)
    }
}

/// How many bytes from the start are UTF-8.
pub open spec fn utf8_valid_up_to(bytes: Seq<u8>) -> nat {
    utf8_prefix_len(bytes, bytes.len())
}

/// The bytes that are UTF-8 from the start are a prefix, and no longer one is UTF-8.
pub proof fn valid_up_to_is_longest(bytes: Seq<u8>, n: int)
    ensures
        utf8_valid_up_to(bytes) <= bytes.len(),
        utf8_valid_up_to(bytes) > 0 ==> valid_utf8(bytes.take(utf8_valid_up_to(bytes) as int)),
        utf8_valid_up_to(bytes) < n <= bytes.len() ==> !valid_utf8(bytes.take(n)),
{
    lemma_prefix_len(bytes, bytes.len(), n);
}

proof fn lemma_prefix_len(bytes: Seq<u8>, most: nat, n: int)
    ensures
        utf8_prefix_len(bytes, most) <= most,
        utf8_prefix_len(bytes, most) > 0 ==> valid_utf8(
            bytes.take(utf8_prefix_len(bytes, most) as int),
        ),
        utf8_prefix_len(bytes, most) < n <= most ==> !valid_utf8(bytes.take(n)),
    decreases most,
{
    if most > 0 && !valid_utf8(bytes.take(most as int)) {
        lemma_prefix_len(bytes, (most - 1) as nat, n);
    }
}

/// What `Utf8Error::error_len` says of bytes that are not UTF-8: the length of
/// the first offending sequence, or nothing if the bytes end inside it.
pub uninterp spec fn utf8_error_len(bytes: Seq<u8>) -> Option<usize>;

/// `String::from_utf8`: the text that the bytes encode, or, from the error, its
/// `valid_up_to` and `error_len`. An error without a length means that the bytes
/// end inside a character, at most three bytes after the valid part.
#[verifier::external_body]
pub(crate) fn string_from_utf8(bytes: Vec<u8>) -> (r: Result<String, (usize, Option<usize>)>)
    ensures
        match r {
            Ok(text) => valid_utf8(bytes@) && text@ == decode_utf8(bytes@),
            Err((valid_up_to, error_len)) => {
                &&& !valid_utf8(bytes@)
                &&& valid_up_to == utf8_valid_up_to(bytes@)
                &&& error_len == utf8_error_len(bytes@)
                &&& error_len is None ==> 1 <= bytes@.len() - valid_up_to <= 3
            },
        },
{
    match String::from_utf8(bytes) {
        Ok(text) => Ok(text),
        Err(e) => Err((e.utf8_error().valid_up_to(), e.utf8_error().error_len())),
    }
}

/// What `String::from_utf8_lossy` makes of bytes.
pub uninterp spec fn utf8_lossy(bytes: Seq<u8>) -> Seq<char>;

/// `String::from_utf8_lossy`: the text that the bytes encode, with replacement
/// characters where they encode none.
#[verifier::external_body]
pub(crate) fn string_from_utf8_lossy(bytes: &[u8]) -> (text: String)
    ensures
        text@ == utf8_lossy(bytes@),
        valid_utf8(bytes@) ==> text@ == decode_utf8(bytes@),
{
    String::from_utf8_lossy(bytes).into_owned()
}

/// `String::push`: appends a character.
pub assume_specification[ String::push ](s: &mut String, ch: char)
    ensures
        final(s)@ == old(s)@.push(ch),
;

/// Texts with a separator between each two.
pub open spec fn joined(parts: Seq<Seq<char>>, separator: Seq<char>) -> Seq<char>
    decreases parts.len(),
{
    if parts.len() == 0 {
        Seq::empty()
    } else if parts.len() == 1 {
        parts[0]
    } else {
        joined(parts.drop_last(), separator) + separator + parts.last()
    }
}

/// A digit of a numeral in a base up to 16.
pub open spec fn digit(d: nat) -> char {
    if d < 10 {
        ('0' as int + d) as char
    } else {
        ('a' as int + (d - 10)) as char
    }
}

/// A number in a base, without leading zeros.
pub open spec fn numeral(v: nat, base: nat) -> Seq<char>
    decreases v,
{
    if base < 2 || v < base {
        seq![digit(v)]
    } else {
        proof {
            assert(v / base < v) by (nonlinear_arith)
                requires
                    v >= base,
                    base >= 2,
            ;
        }
        numeral(v / base, base).push(digit(v % base))
    }
}

/// A number in base ten.
pub open spec fn decimal(v: nat) -> Seq<char> {
    numeral(v, 10)
}

/// A number in base sixteen, with lower-case letters.
pub open spec fn hexadecimal(v: nat) -> Seq<char> {
    numeral(v, 16)
}

/// Appends a digit.
pub(crate) fn push_digit(out: &mut String, d: u8)
    requires
        d < 16,
    ensures
        final(out)@ == old(out)@.push(digit(d as nat)),
{
    if d < 10 {
        out.push((48 + d) as char);
    } else {
        out.push((97 + (d - 10)) as char);
    }
}

/// Appends a number in base ten or sixteen.
fn push_numeral(out: &mut String, v: u64, base: u64)
    requires
        2 <= base <= 16,
    ensures
        final(out)@ == old(out)@ + numeral(v as nat, base as nat),
    decreases v,
{
    if v < base {
        push_digit(out, v as u8);
    } else {
        assert(v / base < v) by (nonlinear_arith)
            requires
                v >= base,
                base >= 2,
        ;
        push_numeral(out, v / base, base);
        assert(v % base < base) by (nonlinear_arith)
            requires
                base >= 2,
        ;
        push_digit(out, (v % base) as u8);
    }
    assert(out@ =~= old(out)@ + numeral(v as nat, base as nat));
}

/// Appends a number in base ten.
pub(crate) fn push_decimal(out: &mut String, v: u64)
    ensures
        final(out)@ == old(out)@ + decimal(v as nat),
{
    push_numeral(out, v, 10)
}

/// Appends a number in base sixteen.
pub(crate) fn push_hexadecimal(out: &mut String, v: u64)
    ensures
        final(out)@ == old(out)@ + hexadecimal(v as nat),
{
    push_numeral(out, v, 16)
}

/// The characters of a text.
pub(crate) fn characters(text: &str) -> (v: Vec<char>)
    ensures
        v@ == text@,
{
    let mut v: Vec<char> = Vec::new();
    for c in it: text.chars()
        invariant
            v@ == it.seq().take(it.index() as int),
            it.seq() == text@,
    {
        v.push(c);
        assert(v@ =~= it.seq().take(it.index() + 1));
    }
    assert(v@ =~= text@);
    v
}

} // verus!
