//! Decimal operand parsing: the model of what `u16` decimal text denotes and
//! a verified parser for it.

use vstd::prelude::*;

verus! {

/// A decimal digit character.
pub open spec fn is_digit_char(c: char) -> bool {
    0x30 <= c as u32 <= 0x39
}

/// The numeric value of one decimal digit character.
pub open spec fn digit_val(c: char) -> int {
    c as u32 - 0x30
}

/// Whether every character of `s` is a decimal digit.
pub open spec fn all_digits(s: Seq<char>) -> bool {
    forall|i: int| 0 <= i < s.len() ==> is_digit_char(s[i])
}

/// The number that the digit string `s` denotes, most significant digit
/// first.
pub open spec fn digits_val(s: Seq<char>) -> int
    decreases s.len(),
{
    if s.len() == 0 {
        0
    } else {
        10 * digits_val(s.drop_last()) + digit_val(s.last())
    }
}

pub proof fn lemma_digits_val_nonneg(s: Seq<char>)
    requires
        all_digits(s),
    ensures
        digits_val(s) >= 0,
    decreases s.len(),
{
    if s.len() > 0 {
        assert(all_digits(s.drop_last()));
        lemma_digits_val_nonneg(s.drop_last());
    }
}

/// A longer digit string never denotes a smaller number: the value of a
/// prefix bounds the value of the whole from below.
pub proof fn lemma_digits_val_prefix_le(s: Seq<char>, i: int)
    requires
        all_digits(s),
        0 <= i <= s.len(),
    ensures
        digits_val(s.take(i)) <= digits_val(s),
    decreases s.len() - i,
{
    if i < s.len() {
        assert(all_digits(s.take(i)));
        lemma_digits_val_nonneg(s.take(i));
        assert(s.take(i + 1).drop_last() =~= s.take(i));
        assert(s.take(i + 1).last() == s[i]);
        lemma_digits_val_prefix_le(s, i + 1);
    } else {
        assert(s.take(i) =~= s);
    }
}

/// What `u16` decimal parsing accepts and yields: an optional leading plus
/// sign, then one or more decimal digits denoting a value of at most 65535.
pub open spec fn parse_u16_spec(s: Seq<char>) -> Option<u16> {
    let d = if s.len() >= 1 && s[0] == '+' {
        s.drop_first()
    } else {
        s
    };
    if d.len() >= 1 && all_digits(d) && digits_val(d) <= 65535 {
        Some(digits_val(d) as u16)
    } else {
        None
    }
}

/// The character of one decimal digit value.
pub open spec fn char_of_digit(d: int) -> char {
    if d == 0 {
        '0'
    } else if d == 1 {
        '1'
    } else if d == 2 {
        '2'
    } else if d == 3 {
        '3'
    } else if d == 4 {
        '4'
    } else if d == 5 {
        '5'
    } else if d == 6 {
        '6'
    } else if d == 7 {
        '7'
    } else if d == 8 {
        '8'
    } else {
        '9'
    }
}

/// The decimal rendering of a non-negative number, most significant digit
/// first and without redundant leading zeros.
pub open spec fn dec_str(v: int) -> Seq<char>
    decreases v,
{
    if v < 10 {
        seq![char_of_digit(v)]
    } else {
        dec_str(v / 10).push(char_of_digit(v % 10))
    }
}

pub proof fn lemma_dec_str_digits(v: int)
    requires
        v >= 0,
    ensures
        all_digits(dec_str(v)),
        dec_str(v).len() >= 1,
        digits_val(dec_str(v)) == v,
    decreases v,
{
    if v < 10 {
        let c = char_of_digit(v);
        assert(seq![c].drop_last() =~= Seq::<char>::empty());
        assert(seq![c].last() == c);
        assert(digit_val(c) == v);
        assert(digits_val(Seq::<char>::empty()) == 0);
        assert(digits_val(seq![c]) == 10 * digits_val(seq![c].drop_last()) + digit_val(c));
    } else {
        vstd::arithmetic::div_mod::lemma_fundamental_div_mod(v, 10);
        vstd::arithmetic::div_mod::lemma_mod_bound(v, 10);
        assert(0 <= v / 10 < v);
        lemma_dec_str_digits(v / 10);
        let a = dec_str(v / 10);
        let c = char_of_digit(v % 10);
        assert(digit_val(c) == v % 10);
        assert(a.push(c).drop_last() =~= a);
        assert(a.push(c).last() == c);
        assert(all_digits(a.push(c)));
        assert(digits_val(dec_str(v)) == 10 * digits_val(a) + digit_val(c));
    }
}

/// Rendering a 16-bit value in decimal and parsing it back yields the value:
/// decimal parsing inverts decimal rendering.
pub proof fn lemma_parse_dec_str(v: u16)
    ensures
        parse_u16_spec(dec_str(v as int)) == Some(v),
{
    lemma_dec_str_digits(v as int);
    let ds = dec_str(v as int);
    assert(is_digit_char(ds[0]));
    assert(ds[0] != '+');
    assert(digits_val(ds) <= 65535);
}

/// Parses `s` as decimal `u16` text, accepting exactly what `str::parse`
/// does on an unsigned 16-bit target; `n` is the character length of `s`.
pub fn parse_u16_str(s: &str, n: usize) -> (r: Option<u16>)
    requires
        n == s@.len(),
    ensures
        r == parse_u16_spec(s@),
{
    let start: usize = if n >= 1 && s.get_char(0) == '+' {
        1
    } else {
        0
    };
    let ghost d = s@.subrange(start as int, n as int);
    proof {
        if start == 1 {
            assert(d =~= s@.drop_first());
        } else {
            assert(d =~= s@);
        }
    }
    if start == n {
        return None;
    }
    let mut val: u32 = 0;
    let mut j = start;
    while j < n
        invariant
            start <= j <= n,
            n == s@.len(),
            (start == 1) == (n >= 1 && s@[0] == '+'),
            start == 0 || start == 1,
            d == s@.subrange(start as int, n as int),
            all_digits(d.take(j - start)),
            val == digits_val(d.take(j - start)),
            val <= 65535,
        decreases n - j,
    {
        let c = s.get_char(j);
        let u = c as u32;
        proof {
            assert(d[j - start] == c);
        }
        if u < 0x30 || u > 0x39 {
            proof {
                if start == 1 {
                    assert(d =~= s@.drop_first());
                } else {
                    assert(d =~= s@);
                }
                assert(!is_digit_char(c));
                assert(!all_digits(d));
            }
            return None;
        }
        let dv = u - 0x30;
        let next = val * 10 + dv;
        proof {
            assert(d.take(j - start + 1).drop_last() =~= d.take(j - start));
            assert(d.take(j - start + 1).last() == d[j - start]);
            assert(next == digits_val(d.take(j - start + 1)));
        }
        if next > 65535 {
            proof {
                if start == 1 {
                    assert(d =~= s@.drop_first());
                } else {
                    assert(d =~= s@);
                }
                if all_digits(d) {
                    lemma_digits_val_prefix_le(d, j - start + 1);
                    assert(digits_val(d) > 65535);
                }
            }
            return None;
        }
        val = next;
        j += 1;
    }
    proof {
        assert(d.take(n - start) =~= d);
        assert(d.len() >= 1);
    }
    Some(val as u16)
}

} // verus!
