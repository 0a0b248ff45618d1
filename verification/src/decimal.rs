//! Fixed-width decimal numerals over character sequences.
//!
//! The duration display and the store codec both write unsigned integers as
//! runs of decimal digit characters. This module defines the digit alphabet,
//! the value of a digit run, and the numeral of a value at a given width, and
//! proves that printing and reading are inverse for values that fit the width.

use vstd::prelude::*;

verus! {

/// Powers of ten.
pub open spec fn pow10(e: nat) -> nat
    decreases e,
{
    if e == 0 {
        1
    } else {
        10 * pow10((e - 1) as nat)
    }
}

/// The character for one digit value below ten.
pub open spec fn digit_char(d: nat) -> char {
    if d == 0 {
        '0'
    } else if d == 1 {
        '1'
    } else if d == 2 {
        '2'
    } else if d == 3 {
        '3'
    } else if d == 4 {
        '4'
    } else if d == 5 {
        '5'
    } else if d == 6 {
        '6'
    } else if d == 7 {
        '7'
    } else if d == 8 {
        '8'
    } else {
        '9'
    }
}

/// The digit value of a character; ten marks a character that is no digit.
pub open spec fn char_val(c: char) -> nat {
    if c == '0' {
        0
    } else if c == '1' {
        1
    } else if c == '2' {
        2
    } else if c == '3' {
        3
    } else if c == '4' {
        4
    } else if c == '5' {
        5
    } else if c == '6' {
        6
    } else if c == '7' {
        7
    } else if c == '8' {
        8
    } else if c == '9' {
        9
    } else {
        10
    }
}

pub open spec fn is_digit_char(c: char) -> bool {
    char_val(c) < 10
}

pub open spec fn all_digits(s: Seq<char>) -> bool {
    forall|i: int| 0 <= i < s.len() ==> is_digit_char(#[trigger] s[i])
}

/// The numeral of `n` at width `w`: the last `w` decimal digits of `n`,
/// zero-padded on the left.
pub open spec fn spec_digits(n: nat, w: nat) -> Seq<char>
    decreases w,
{
    if w == 0 {
        Seq::empty()
    } else {
        spec_digits(n / 10, (w - 1) as nat).push(digit_char(n % 10))
    }
}

/// The value of a run of digit characters, most significant first.
pub open spec fn spec_digits_val(s: Seq<char>) -> nat
    decreases s.len(),
{
    if s.len() == 0 {
        0
    } else {
        spec_digits_val(s.drop_last()) * 10 + char_val(s.last())
    }
}

pub proof fn lemma_pow10_pos(e: nat)
    ensures
        pow10(e) >= 1,
    decreases e,
{
    if e > 0 {
        lemma_pow10_pos((e - 1) as nat);
    }
}

pub proof fn lemma_pow10_mono(a: nat, b: nat)
    requires
        a <= b,
    ensures
        pow10(a) <= pow10(b),
    decreases b,
{
    if a < b {
        lemma_pow10_mono(a, (b - 1) as nat);
        lemma_pow10_pos((b - 1) as nat);
    }
}

/// Concrete bounds used when reading numerals into machine integers.
pub proof fn lemma_pow10_20()
    ensures
        pow10(20) == 0x5_6bc7_5e2d_6310_0000,
        u64::MAX < pow10(20),
        pow10(20) <= u128::MAX,
{
    reveal_with_fuel(pow10, 21);
}

pub proof fn lemma_digit_char_val(d: nat)
    requires
        d < 10,
    ensures
        char_val(digit_char(d)) == d,
{
}

pub proof fn lemma_spec_digits_len(n: nat, w: nat)
    ensures
        spec_digits(n, w).len() == w,
    decreases w,
{
    if w > 0 {
        lemma_spec_digits_len(n / 10, (w - 1) as nat);
    }
}

pub proof fn lemma_spec_digits_all_digits(n: nat, w: nat)
    ensures
        all_digits(spec_digits(n, w)),
    decreases w,
{
    if w > 0 {
        lemma_spec_digits_all_digits(n / 10, (w - 1) as nat);
        lemma_spec_digits_len(n / 10, (w - 1) as nat);
        let s = spec_digits(n, w);
        let t = spec_digits(n / 10, (w - 1) as nat);
        assert forall|i: int| 0 <= i < s.len() implies is_digit_char(#[trigger] s[i]) by {
            if i < w - 1 {
                assert(s[i] == t[i]);
            } else {
                assert(s[i] == digit_char(n % 10));
            }
        }
    }
}

/// Reading back the numeral of `n` at width `w` gives `n` modulo ten to the `w`.
pub proof fn lemma_spec_digits_val(n: nat, w: nat)
    ensures
        spec_digits_val(spec_digits(n, w)) == n % pow10(w),
    decreases w,
{
    if w == 0 {
        assert(n % 1 == 0) by {
            vstd::arithmetic::div_mod::lemma_mod_self_0(1);
            vstd::arithmetic::div_mod::lemma_mod_multiples_basic(n as int, 1);
        }
    } else {
        let t = spec_digits(n / 10, (w - 1) as nat);
        lemma_spec_digits_val(n / 10, (w - 1) as nat);
        lemma_spec_digits_len(n / 10, (w - 1) as nat);
        assert(spec_digits(n, w).drop_last() =~= t);
        assert(spec_digits(n, w).last() == digit_char(n % 10));
        lemma_digit_char_val(n % 10);
        lemma_pow10_pos((w - 1) as nat);
        vstd::arithmetic::div_mod::lemma_mod_breakdown(n as int, 10, pow10((w - 1) as nat) as int);
        assert(pow10(w) == 10 * pow10((w - 1) as nat));
    }
}

/// For a value below ten to the `w`, printing then reading is the identity.
pub proof fn lemma_digits_roundtrip(n: nat, w: nat)
    requires
        n < pow10(w),
    ensures
        spec_digits_val(spec_digits(n, w)) == n,
{
    lemma_spec_digits_val(n, w);
    lemma_pow10_pos(w);
    vstd::arithmetic::div_mod::lemma_small_mod(n, pow10(w));
}

/// The number of digits in the plain (unpadded) numeral of `n`.
pub open spec fn ndigits(n: nat) -> nat
    decreases n,
{
    if n < 10 {
        1
    } else {
        1 + ndigits(n / 10)
    }
}

pub proof fn lemma_ndigits_bound(n: nat)
    ensures
        n < pow10(ndigits(n)),
        ndigits(n) >= 1,
    decreases n,
{
    assert(pow10(1) == 10) by {
        reveal_with_fuel(pow10, 2);
    }
    if n >= 10 {
        lemma_ndigits_bound(n / 10);
        let k = ndigits(n / 10);
        vstd::arithmetic::div_mod::lemma_fundamental_div_mod(n as int, 10);
        vstd::arithmetic::div_mod::lemma_mod_division_less_than_divisor(n as int, 10);
        assert((n as int) == 10 * ((n as int) / 10) + (n as int) % 10);
        assert((n as int) / 10 == (n / 10) as int);
        assert((n as int) < 10 * ((n / 10) as int) + 10);
        assert(10 * ((n / 10) as int) + 10 == 10 * ((n / 10) as int + 1));
        assert(10 * ((n / 10) as int + 1) <= 10 * pow10(k)) by (nonlinear_arith)
            requires
                (n / 10) as int + 1 <= pow10(k),
        ;
        assert(pow10(ndigits(n)) == 10 * pow10(k));
    }
}

fn digit_to_str(d: u8) -> (r: &'static str)
    requires
        d < 10,
    ensures
        r@ == seq![digit_char(d as nat)],
{
    proof {
        reveal_strlit("0");
        reveal_strlit("1");
        reveal_strlit("2");
        reveal_strlit("3");
        reveal_strlit("4");
        reveal_strlit("5");
        reveal_strlit("6");
        reveal_strlit("7");
        reveal_strlit("8");
        reveal_strlit("9");
    }
    let r: &'static str = if d == 0 {
        "0"
    } else if d == 1 {
        "1"
    } else if d == 2 {
        "2"
    } else if d == 3 {
        "3"
    } else if d == 4 {
        "4"
    } else if d == 5 {
        "5"
    } else if d == 6 {
        "6"
    } else if d == 7 {
        "7"
    } else if d == 8 {
        "8"
    } else {
        "9"
    };
    proof {
        assert(r@ =~= seq![digit_char(d as nat)]);
    }
    r
}

/// Appends the numeral of `n` at width `w` to `out`.
pub fn push_digits(out: &mut String, n: u64, w: usize)
    ensures
        final(out)@ == old(out)@ + spec_digits(n as nat, w as nat),
    decreases w,
{
    if w > 0 {
        push_digits(out, n / 10, w - 1);
        out.append(digit_to_str((n % 10) as u8));
        proof {
            assert(out@ =~= old(out)@ + spec_digits(n as nat, w as nat));
        }
    } else {
        proof {
            assert(out@ =~= old(out)@ + spec_digits(n as nat, 0));
        }
    }
}

/// Counts the digits of the plain numeral of `n`.
pub fn num_digits(n: u64) -> (r: usize)
    ensures
        r == ndigits(n as nat),
        1 <= r <= 20,
    decreases n,
{
    proof {
        lemma_ndigits_20(n as nat);
    }
    if n < 10 {
        1
    } else {
        1 + num_digits(n / 10)
    }
}

proof fn lemma_ndigits_20(n: nat)
    requires
        n <= u64::MAX,
    ensures
        1 <= ndigits(n) <= 20,
{
    lemma_pow10_20();
    lemma_ndigits_le(n, 20);
}

proof fn lemma_ndigits_le(n: nat, w: nat)
    requires
        n < pow10(w),
        w >= 1,
    ensures
        1 <= ndigits(n) <= w,
    decreases n,
{
    if n >= 10 {
        assert(pow10(w) == 10 * pow10((w - 1) as nat));
        assert(n / 10 < pow10((w - 1) as nat)) by {
            vstd::arithmetic::div_mod::lemma_fundamental_div_mod(n as int, 10);
        }
        lemma_ndigits_le(n / 10, (w - 1) as nat);
    }
}

/// Reads `w` digit characters at `pos`; `None` when one of them is no digit.
/// The value is returned exactly; it is below ten to the `w`.
pub fn parse_digits(s: &str, pos: usize, w: usize) -> (r: Option<u128>)
    requires
        pos + w <= s@.len(),
        s@.len() <= usize::MAX,
        w <= 20,
    ensures
        r is Some <==> all_digits(s@.subrange(pos as int, pos as int + w)),
        r matches Some(v) ==> v as nat == spec_digits_val(
            s@.subrange(pos as int, pos as int + w),
        ) && (v as nat) < pow10(w as nat),
    decreases w,
{
    if w == 0 {
        proof {
            assert(s@.subrange(pos as int, pos as int) =~= Seq::<char>::empty());
        }
        Some(0)
    } else {
        let ghost whole = s@.subrange(pos as int, pos as int + w);
        let ghost head = s@.subrange(pos as int, pos as int + w - 1);
        proof {
            assert(whole.drop_last() =~= head);
        }
        let r = parse_digits(s, pos, w - 1);
        let c = s.get_char(pos + w - 1);
        proof {
            assert(whole.last() == c);
            assert forall|i: int| 0 <= i < head.len() implies head[i] == whole[i] by {}
            if all_digits(head) && is_digit_char(c) {
                assert forall|i: int| 0 <= i < whole.len() implies is_digit_char(
                    #[trigger] whole[i],
                ) by {
                    if i < w - 1 {
                        assert(whole[i] == head[i]);
                    }
                }
            }
            if all_digits(whole) {
                assert(all_digits(head));
                assert(is_digit_char(whole.last()));
            }
        }
        let d = char_digit(c);
        match r {
            Some(v) => {
                if d < 10 {
                    proof {
                        lemma_pow10_20();
                        lemma_pow10_mono(w as nat, 20);
                        lemma_pow10_mono((w - 1) as nat, 20);
                        assert(pow10(w as nat) == 10 * pow10((w - 1) as nat));
                        assert(v * 10 + d < pow10(w as nat));
                    }
                    Some(v * 10 + d as u128)
                } else {
                    None
                }
            },
            None => None,
        }
    }
}

/// The digit value of a character, or ten when it is no digit.
fn char_digit(c: char) -> (d: u8)
    ensures
        d as nat == char_val(c),
{
    if c == '0' {
        0
    } else if c == '1' {
        1
    } else if c == '2' {
        2
    } else if c == '3' {
        3
    } else if c == '4' {
        4
    } else if c == '5' {
        5
    } else if c == '6' {
        6
    } else if c == '7' {
        7
    } else if c == '8' {
        8
    } else if c == '9' {
        9
    } else {
        10
    }
}

} // verus!
