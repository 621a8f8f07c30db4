//! Decimal rendering of unsigned integers, used for DHT reference keys and
//! for the serialised confidence value.

use vstd::prelude::*;
use vstd::string::StringExecFns;

verus! {

broadcast use vstd::string::group_string_axioms;

/// The character for a single decimal digit.
pub open spec fn digit_char(d: nat) -> char {
    if d == 0 {
        '0'
    } else if d == 1 {
        '1'
    } else if d == 2 {
        '2'
    } else if d == 3 {
        '3'
    } else if d == 4 {
        '4'
    } else if d == 5 {
        '5'
    } else if d == 6 {
        '6'
    } else if d == 7 {
        '7'
    } else if d == 8 {
        '8'
    } else {
        '9'
    }
}

/// The value of a decimal digit character.
pub open spec fn digit_val(c: char) -> nat {
    if c == '0' {
        0
    } else if c == '1' {
        1
    } else if c == '2' {
        2
    } else if c == '3' {
        3
    } else if c == '4' {
        4
    } else if c == '5' {
        5
    } else if c == '6' {
        6
    } else if c == '7' {
        7
    } else if c == '8' {
        8
    } else {
        9
    }
}

/// Decimal digits of `v`, most significant first; empty for zero.
pub open spec fn spec_digits(v: nat) -> Seq<char>
    decreases v,
{
    if v == 0 {
        Seq::empty()
    } else {
        spec_digits(v / 10).push(digit_char(v % 10))
    }
}

/// The canonical decimal rendering of `v`: `"0"` for zero, and the digits
/// without leading zeroes otherwise.
pub open spec fn spec_decimal(v: nat) -> Seq<char> {
    if v == 0 {
        seq!['0']
    } else {
        spec_digits(v)
    }
}

/// The number denoted by a sequence of decimal digit characters.
pub open spec fn spec_decimal_value(s: Seq<char>) -> nat
    decreases s.len(),
{
    if s.len() == 0 {
        0
    } else {
        spec_decimal_value(s.drop_last()) * 10 + digit_val(s.last())
    }
}

pub proof fn lemma_digit_char_val(d: nat)
    requires
        d < 10,
    ensures
        digit_val(digit_char(d)) == d,
        '0' <= digit_char(d) <= '9',
{
}

proof fn lemma_digits_value(v: nat)
    ensures
        spec_decimal_value(spec_digits(v)) == v,
    decreases v,
{
    if v > 0 {
        lemma_digits_value(v / 10);
        lemma_digit_char_val(v % 10);
        assert(spec_digits(v).drop_last() =~= spec_digits(v / 10));
        vstd::arithmetic::div_mod::lemma_fundamental_div_mod(v as int, 10);
    }
}

/// Reading the decimal rendering back recovers the value: the rendering
/// loses nothing.
pub proof fn lemma_decimal_round_trip(v: nat)
    ensures
        spec_decimal_value(spec_decimal(v)) == v,
{
    if v == 0 {
        let s = spec_decimal(0);
        assert(s.len() == 1 && s.last() == '0');
        assert(s.drop_last() =~= Seq::<char>::empty());
        assert(spec_decimal_value(s.drop_last()) == 0);
        assert(spec_decimal_value(s) == 0 * 10 + digit_val('0'));
    } else {
        lemma_digits_value(v);
    }
}

/// Every character of the rendering is a decimal digit, hence ASCII.
pub proof fn lemma_decimal_digits_only(v: nat)
    ensures
        forall|i: int|
            0 <= i < spec_decimal(v).len() ==> '0' <= #[trigger] spec_decimal(v)[i] <= '9',
    decreases v,
{
    if v > 0 {
        lemma_decimal_digits_only(v / 10);
        lemma_digit_char_val(v % 10);
        let prefix = spec_digits(v / 10);
        assert(spec_digits(v) == prefix.push(digit_char(v % 10)));
        if v / 10 == 0 {
            assert(prefix =~= Seq::<char>::empty());
        } else {
            assert(prefix == spec_decimal(v / 10));
        }
        assert forall|i: int| 0 <= i < spec_decimal(v).len() implies '0' <= #[trigger] spec_decimal(
            v,
        )[i] <= '9' by {
            if i < prefix.len() {
                assert(spec_decimal(v)[i] == prefix[i]);
            } else {
                assert(spec_decimal(v)[i] == digit_char(v % 10));
            }
        }
    }
}

fn push_digit(s: &mut String, d: u64)
    requires
        d < 10,
    ensures
        final(s)@ == old(s)@.push(digit_char(d as nat)),
{
    let t: &str = if d == 0 {
        "0"
    } else if d == 1 {
        "1"
    } else if d == 2 {
        "2"
    } else if d == 3 {
        "3"
    } else if d == 4 {
        "4"
    } else if d == 5 {
        "5"
    } else if d == 6 {
        "6"
    } else if d == 7 {
        "7"
    } else if d == 8 {
        "8"
    } else {
        "9"
    };
    proof {
        reveal_strlit("0");
        reveal_strlit("1");
        reveal_strlit("2");
        reveal_strlit("3");
        reveal_strlit("4");
        reveal_strlit("5");
        reveal_strlit("6");
        reveal_strlit("7");
        reveal_strlit("8");
        reveal_strlit("9");
        assert(t@ =~= seq![digit_char(d as nat)]);
    }
    s.append(t);
    proof {
        assert(s@ =~= old(s)@.push(digit_char(d as nat)));
    }
}

fn digits_string(v: u64) -> (s: String)
    ensures
        s@ == spec_digits(v as nat),
    decreases v,
{
    if v == 0 {
        let s = String::new();
        proof {
            assert(s@ =~= spec_digits(0));
        }
        s
    } else {
        proof {
            vstd::arithmetic::div_mod::lemma_div_decreases(v as int, 10);
        }
        let mut s = digits_string(v / 10);
        push_digit(&mut s, v % 10);
        s
    }
}

/// Decimal rendering of `v`, most significant digit first.
pub fn u64_to_decimal(v: u64) -> (s: String)
    ensures
        s@ == spec_decimal(v as nat),
{
    if v == 0 {
        let mut s = String::new();
        push_digit(&mut s, 0);
        proof {
            assert(s@ =~= seq!['0']);
        }
        s
    } else {
        digits_string(v)
    }
}

} // verus!
