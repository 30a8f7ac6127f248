//! What numerals and lists are: which digit stands where, and how a list is taken
//! apart again.

use vstd::arithmetic::div_mod::lemma_div_denominator;
use vstd::arithmetic::power::{lemma_pow_positive, pow};
use vstd::prelude::*;

use crate::relay::{all_lack, lacks};
use crate::settings::decimal_value;
use crate::text::{decimal, digit, hexadecimal, joined, numeral};

verus! {

/// The digits up to nine, then letters, in this order.
pub proof fn digit_table(d: nat)
    requires
        d < 16,
    ensures
        digit(d) == "0123456789abcdef"@[d as int],
{
    reveal_strlit("0123456789abcdef");
}

proof fn lemma_numeral(v: nat, base: nat)
    requires
        2 <= base <= 16,
    ensures
        ({
            let s = numeral(v, base);
            &&& s.len() >= 1
            &&& v < pow(base as int, s.len())
            &&& s.len() > 1 ==> pow(base as int, (s.len() - 1) as nat) <= v
            &&& forall|i: int|
                0 <= i < s.len() ==> s[s.len() - 1 - i] == #[trigger] digit(
                    (v as int / pow(base as int, i as nat) % base as int) as nat,
                )
        }),
    decreases v,
{
    reveal(pow);
    let s = numeral(v, base);
    let b = base as int;
    if v < base {
        assert(pow(b, 1) == b * pow(b, 0));
        assert(v as int / 1 % b == v) by (nonlinear_arith)
            requires
                0 <= v < b,
        ;
        assert(s =~= seq![digit(v)]);
    } else {
        let w = v / base;
        assert(w < v) by (nonlinear_arith)
            requires
                w == v / base,
                v >= base,
                base >= 2,
        ;
        lemma_numeral(w, base);
        let t = numeral(w, base);
        let n = t.len();
        assert(s == t.push(digit(v % base)));
        let p = pow(b, n);
        let q = pow(b, (n - 1) as nat);
        assert(pow(b, n + 1) == b * p);
        assert(p == b * q);
        assert(v < b * p) by (nonlinear_arith)
            requires
                w == v / base,
                w < p,
                b == base,
                base >= 2,
        ;
        assert(w >= 1) by (nonlinear_arith)
            requires
                w == v / base,
                v >= base,
                base >= 2,
        ;
        assert(pow(b, 0) == 1);
        assert(q <= w);
        assert(b * q <= v) by (nonlinear_arith)
            requires
                w == v / base,
                q <= w,
                b == base,
                base >= 2,
        ;
        assert forall|i: int| 0 <= i < s.len() implies s[s.len() - 1 - i] == #[trigger] digit(
            (v as int / pow(b, i as nat) % b) as nat,
        ) by {
            if i == 0 {
                assert(pow(b, 0) == 1);
                assert(v as int / 1 == v);
            } else {
                let j = i - 1;
                lemma_pow_positive(b, j as nat);
                assert(pow(b, i as nat) == b * pow(b, j as nat));
                lemma_div_denominator(v as int, b, pow(b, j as nat));
                assert(s[s.len() - 1 - i] == t[t.len() - 1 - j]);
                assert(t[t.len() - 1 - j] == digit((w as int / pow(b, j as nat) % b) as nat));
            }
        }
    }
}

/// A number in base ten has as many digits as it needs, and the digit for each power
/// of ten stands where it belongs.
pub proof fn decimal_digits(v: nat, i: int)
    requires
        0 <= i < decimal(v).len(),
    ensures
        v < pow(10, decimal(v).len()),
        decimal(v).len() > 1 ==> pow(10, (decimal(v).len() - 1) as nat) <= v,
        decimal(v)[decimal(v).len() - 1 - i] == "0123456789"@[v as int / pow(10, i as nat) % 10],
{
    reveal_strlit("0123456789");
    lemma_numeral(v, 10);
    let d = (v as int / pow(10, i as nat) % 10) as nat;
    assert(decimal(v)[decimal(v).len() - 1 - i] == digit(d));
}

/// A number in base sixteen has as many digits as it needs, and the digit for each
/// power of sixteen stands where it belongs.
pub proof fn hexadecimal_digits(v: nat, i: int)
    requires
        0 <= i < hexadecimal(v).len(),
    ensures
        v < pow(16, hexadecimal(v).len()),
        hexadecimal(v).len() > 1 ==> pow(16, (hexadecimal(v).len() - 1) as nat) <= v,
        hexadecimal(v)[hexadecimal(v).len() - 1 - i] == "0123456789abcdef"@[v as int / pow(
            16,
            i as nat,
        ) % 16],
{
    lemma_numeral(v, 16);
    let d = (v as int / pow(16, i as nat) % 16) as nat;
    assert(hexadecimal(v)[hexadecimal(v).len() - 1 - i] == digit(d));
    digit_table(d);
}

/// A number in base ten is made of digits, and these spell it.
pub proof fn decimal_is_spelled(v: nat)
    ensures
        decimal(v).len() >= 1,
        forall|i: int| 0 <= i < decimal(v).len() ==> '0' <= #[trigger] decimal(v)[i] <= '9',
        decimal_value(decimal(v)) == v,
    decreases v,
{
    if v < 10 {
        assert(decimal(v) =~= seq![digit(v)]);
        assert(decimal(v).drop_last() =~= Seq::<char>::empty());
        reveal_with_fuel(decimal_value, 2);
    } else {
        decimal_is_spelled(v / 10);
        assert(decimal(v) == decimal(v / 10).push(digit(v % 10)));
        assert(decimal(v).drop_last() =~= decimal(v / 10));
        assert forall|i: int| 0 <= i < decimal(v).len() implies '0' <= #[trigger] decimal(v)[i]
            <= '9' by {
            if i < decimal(v / 10).len() {
                assert(decimal(v)[i] == decimal(v / 10)[i]);
            }
        }
    }
}

/// Different numbers have different numerals.
pub proof fn decimals_differ(a: nat, b: nat)
    requires
        decimal(a) == decimal(b),
    ensures
        a == b,
{
    decimal_is_spelled(a);
    decimal_is_spelled(b);
}

/// A numeral holds no character that is not a digit.
pub proof fn decimal_lacks(v: nat, c: char)
    requires
        c < '0' || c > '9',
    ensures
        lacks(decimal(v), c),
{
    decimal_is_spelled(v);
}

/// The parts of a text between the places where this character stands.
pub open spec fn split(text: Seq<char>, c: char) -> Seq<Seq<char>>
    decreases text.len(),
{
    if text.len() == 0 {
        seq![Seq::empty()]
    } else {
        let before = split(text.drop_last(), c);
        if text.last() == c {
            before.push(Seq::empty())
        } else {
            before.drop_last().push(before.last().push(text.last()))
        }
    }
}

proof fn lemma_split_whole(text: Seq<char>, c: char)
    requires
        lacks(text, c),
    ensures
        split(text, c) == seq![text],
    decreases text.len(),
{
    if text.len() > 0 {
        lemma_split_whole(text.drop_last(), c);
        assert(text.drop_last().push(text.last()) =~= text);
        assert(split(text, c) =~= seq![text]);
    } else {
        assert(text =~= Seq::empty());
    }
}

proof fn lemma_split_last(a: Seq<char>, c: char, x: Seq<char>)
    requires
        lacks(x, c),
    ensures
        split(a + seq![c] + x, c) == split(a, c).push(x),
    decreases x.len(),
{
    let s = a + seq![c] + x;
    if x.len() == 0 {
        assert(s.drop_last() =~= a);
        assert(x =~= Seq::empty());
    } else {
        let y = x.drop_last();
        lemma_split_last(a, c, y);
        assert(s.drop_last() =~= a + seq![c] + y);
        assert(s.last() == x.last());
        let before = split(a, c).push(y);
        assert(before.drop_last() =~= split(a, c));
        assert(y.push(x.last()) =~= x);
    }
}

/// A list is taken apart at its separators into what was put into it: every part,
/// whole and in order.
pub proof fn joined_is_split(parts: Seq<Seq<char>>, c: char)
    requires
        parts.len() > 0,
        all_lack(parts, c),
    ensures
        split(joined(parts, seq![c]), c) == parts,
    decreases parts.len(),
{
    assert(lacks(parts[parts.len() - 1], c));
    if parts.len() == 1 {
        lemma_split_whole(parts[0], c);
        assert(seq![parts[0]] =~= parts);
    } else {
        let init = parts.drop_last();
        assert forall|i: int| 0 <= i < init.len() implies lacks(#[trigger] init[i], c) by {
            assert(lacks(parts[i], c));
        }
        joined_is_split(init, c);
        lemma_split_last(joined(init, seq![c]), c, parts.last());
        assert(init.push(parts.last()) =~= parts);
    }
}

/// Whatever its parts hold, a list is as long as they are together, with a separator
/// between each two, and starts and ends with the first and the last of them.
pub proof fn joined_ends(parts: Seq<Seq<char>>, separator: Seq<char>)
    requires
        parts.len() > 0,
    ensures
        ({
            let s = joined(parts, separator);
            &&& s.len() == parts.flatten().len() + (parts.len() - 1) * separator.len()
            &&& parts[0].is_prefix_of(s)
            &&& parts.last().is_suffix_of(s)
        }),
    decreases parts.len(),
{
    let s = joined(parts, separator);
    parts.lemma_flatten_and_flatten_alt_are_equivalent();
    if parts.len() == 1 {
        parts.lemma_flatten_one_element();
        assert(parts[0] =~= s.take(s.len() as int));
    } else {
        let init = parts.drop_last();
        joined_ends(init, separator);
        init.lemma_flatten_and_flatten_alt_are_equivalent();
        let j = joined(init, separator);
        assert((parts.len() - 1) * separator.len() == (init.len() - 1) * separator.len()
            + separator.len()) by (nonlinear_arith)
            requires
                init.len() == parts.len() - 1,
        ;
        assert(parts[0] =~= s.take(parts[0].len() as int));
        assert(parts.last() =~= s.skip(s.len() - parts.last().len()));
    }
}

/// Whatever its parts hold, the first part of a list is followed by the separator and
/// the list of the others.
pub proof fn joined_second(parts: Seq<Seq<char>>, separator: Seq<char>)
    requires
        parts.len() > 1,
    ensures
        joined(parts, separator) == parts[0] + separator + joined(parts.drop_first(), separator),
    decreases parts.len(),
{
    let rest = parts.drop_first();
    if parts.len() == 2 {
        assert(parts.drop_last() =~= seq![parts[0]]);
        assert(rest =~= seq![parts[1]]);
        assert(joined(seq![parts[0]], separator) == parts[0]);
        assert(joined(seq![parts[1]], separator) == parts[1]);
    } else {
        joined_second(parts.drop_last(), separator);
        assert(parts.drop_last().drop_first() =~= rest.drop_last());
        assert(joined(parts, separator) =~= parts[0] + separator + joined(rest, separator));
    }
}

} // verus!
