use vstd::arithmetic::div_mod::lemma_div_denominator;
use vstd::arithmetic::power2::{lemma_pow2_unfold, pow2};
use vstd::prelude::*;

use crate::text::{decimal, digit_char, push_char, push_decimal, push_str};

verus! {

/// `num / den` rounded to the nearest integer, halves to the even neighbour.
pub open spec fn round_half_even(num: nat, den: nat) -> nat {
    let q = num / den;
    let r = num % den;
    if 2 * r > den || (2 * r == den && q % 2 == 1) {
        q + 1
    } else {
        q
    }
}

/// How many low bits of `v` an `f64` (53 significant bits) cannot hold.
pub open spec fn dropped_bits(v: nat) -> nat
    decreases v,
{
    if v < 0x20_0000_0000_0000 {
        0
    } else {
        1 + dropped_bits(v / 2)
    }
}

/// The value of `v as f64`: `v` rounded to 53 significant bits, halves to even.
pub open spec fn f64_value(v: nat) -> nat {
    round_half_even(v, pow2(dropped_bits(v))) * pow2(dropped_bits(v))
}

/// A number of tenths written with one decimal place, then `unit`.
pub open spec fn tenths_text(tenths: nat, unit: Seq<char>) -> Seq<char> {
    decimal(tenths / 10) + seq!['.', digit_char(tenths % 10)] + unit
}

/// `v / den` in tenths, as `{:.1}` prints a binary fraction: the exact value
/// rounded to one decimal place, halves to the even digit.
pub open spec fn scaled_tenths(v: nat, den: nat) -> nat {
    round_half_even(v * 10, den)
}

/// Rounding to the nearest: `round_half_even(num, den)` times `den` is within
/// half of `den` of `num`.
pub proof fn lemma_round_nearest(num: nat, den: nat)
    requires
        den > 0,
    ensures
        -(den as int) <= 2 * (num as int - round_half_even(num, den) as int * den as int) <= den as int,
{
    let q = num / den;
    let r = num % den;
    vstd::arithmetic::div_mod::lemma_fundamental_div_mod(num as int, den as int);
    assert(num as int == den as int * q as int + r as int);
    if 2 * r > den || (2 * r == den && q % 2 == 1) {
        assert(round_half_even(num, den) == q + 1);
        assert(num as int - (q + 1) as int * den as int == r as int - den as int) by (nonlinear_arith)
            requires
                num as int == den as int * q as int + r as int,
        ;
    } else {
        assert(round_half_even(num, den) == q);
        assert(num as int - q as int * den as int == r as int) by (nonlinear_arith)
            requires
                num as int == den as int * q as int + r as int,
        ;
    }
}

/// An `f64` holds every integer below 2^53 exactly.
pub proof fn lemma_f64_exact(v: nat)
    requires
        v < 0x20_0000_0000_0000,
    ensures
        f64_value(v) == v,
{
    assert(pow2(0) == 1) by {
        vstd::arithmetic::power2::lemma2_to64();
    }
    assert(dropped_bits(v) == 0);
    assert(v / 1 == v && v % 1 == 0);
    assert(round_half_even(v, 1) == v);
}

/// A size text below 1024 bytes is the exact count and the byte unit; above, it
/// is a number of tenths `t` with one decimal place (`tenths_text`) and the unit for the range
/// (`k` from 1024, `m` from 1024^2, `g` from 1024^3), where `t` tenths of the
/// unit is the size rounded to the nearest tenth (for sizes an `f64` holds
/// exactly, below 2^53).
pub proof fn lemma_scaled_size(size: u64, b: Seq<char>, k: Seq<char>, m: Seq<char>, g: Seq<char>)
    ensures
        size < 1024 ==> scaled_size_text(size, b, k, m, g) == decimal(size as nat) + b,
        0x400 <= size < 0x10_0000 ==> exists|t: nat|
            scaled_size_text(size, b, k, m, g) == #[trigger] tenths_text(t, k) && -0x400 <= 2 * (10
                * size - t * 0x400) <= 0x400,
        0x10_0000 <= size < 0x4000_0000 ==> exists|t: nat|
            scaled_size_text(size, b, k, m, g) == #[trigger] tenths_text(t, m) && -0x10_0000 <= 2 * (
            10 * size - t * 0x10_0000) <= 0x10_0000,
        0x4000_0000 <= size ==> exists|t: nat|
            scaled_size_text(size, b, k, m, g) == #[trigger] tenths_text(t, g) && (size
                < 0x20_0000_0000_0000 ==> -0x4000_0000 <= 2 * (10 * size - t * 0x4000_0000)
                <= 0x4000_0000),
{
    if size >= 1024 {
        let den: nat = if size < 0x10_0000 {
            0x400
        } else if size < 0x4000_0000 {
            0x10_0000
        } else {
            0x4000_0000
        };
        let v: nat = if size < 0x4000_0000 {
            size as nat
        } else {
            f64_value(size as nat)
        };
        if size < 0x20_0000_0000_0000 {
            lemma_f64_exact(size as nat);
        }
        let t = round_half_even(v * 10, den);
        lemma_round_nearest(v * 10, den);
        assert(scaled_size_text(size, b, k, m, g) == tenths_text(t, if size < 0x10_0000 {
            k
        } else if size < 0x4000_0000 {
            m
        } else {
            g
        }));
    }
}

pub fn round_half_even_exec(num: u128, den: u128) -> (q: u128)
    requires
        den > 0,
    ensures
        q == round_half_even(num as nat, den as nat),
{
    let q = num / den;
    let r = num % den;
    assert(q <= num) by (nonlinear_arith)
        requires
            den > 0,
            q == num / den,
    ;
    if r > den - r || (r == den - r && q % 2 == 1) {
        assert(q < u128::MAX) by (nonlinear_arith)
            requires
                den > 0,
                q == num / den,
                r == num % den,
                r > 0,
        {
            assert(num == den * q + r);
        }
        q + 1
    } else {
        q
    }
}

/// `v as f64`, as an integer.
pub fn f64_value_exec(v: u64) -> (r: u128)
    ensures
        r == f64_value(v as nat),
        r <= 2 * v + 2,
{
    let mut k: u32 = 0;
    let mut den: u128 = 1;
    let mut t: u64 = v;
    proof {
        assert(pow2(0) == 1) by {
            vstd::arithmetic::power2::lemma2_to64();
        }
    }
    while t >= 0x20_0000_0000_0000
        invariant
            den == pow2(k as nat),
            den >= 1,
            den <= v as nat + 1,
            t as nat == v as nat / den as nat,
            dropped_bits(v as nat) == k + dropped_bits(t as nat),
            k <= 64,
        decreases t,
    {
        proof {
            lemma_div_denominator(v as int, den as int, 2);
            lemma_pow2_unfold((k + 1) as nat);
            assert(den * 2 <= v) by (nonlinear_arith)
                requires
                    t >= 0x20_0000_0000_0000,
                    t as nat == v as nat / den as nat,
                    den >= 1,
            ;
            assert(k < 64) by {
                if k >= 64 {
                    vstd::arithmetic::power2::lemma_pow2_pos(k as nat);
                    assert(pow2(64) == 0x1_0000_0000_0000_0000) by {
                        vstd::arithmetic::power2::lemma2_to64();
                    }
                    vstd::arithmetic::power2::lemma_pow2_strictly_increases(64, k as nat);
                }
            }
        }
        t = t / 2;
        den = den * 2;
        k = k + 1;
    }
    let q = round_half_even_exec(v as u128, den);
    assert(q * den <= 2 * v + 2) by (nonlinear_arith)
        requires
            den >= 1,
            den <= v as nat + 1,
            q <= v as nat / den as nat + 1,
    {
        assert((v as nat / den as nat) * den <= v);
    }
    q * den
}

/// Appends a number of tenths with one decimal place.
pub fn push_tenths(s: &mut String, tenths: u128)
    ensures
        final(s)@ == old(s)@ + decimal(tenths as nat / 10) + seq!['.', digit_char(tenths as nat % 10)],
{
    push_decimal(s, tenths / 10);
    push_char(s, '.');
    let d: u8 = (tenths % 10) as u8;
    push_char(s, (48u8 + d) as char);
    proof {
        assert(final(s)@ =~= old(s)@ + decimal(tenths as nat / 10) + seq!['.', digit_char(tenths as nat % 10)]);
    }
}

/// A byte count as text: whole bytes below 1024, otherwise kibi-, mebi- or
/// gibibytes with one decimal place, each followed by its unit text.
pub open spec fn scaled_size_text(
    size: u64,
    b: Seq<char>,
    k: Seq<char>,
    m: Seq<char>,
    g: Seq<char>,
) -> Seq<char> {
    if size < 1024 {
        decimal(size as nat) + b
    } else if size < 1024 * 1024 {
        tenths_text(scaled_tenths(size as nat, 1024), k)
    } else if size < 1024 * 1024 * 1024 {
        tenths_text(scaled_tenths(size as nat, 1024 * 1024), m)
    } else {
        tenths_text(scaled_tenths(f64_value(size as nat), 1024 * 1024 * 1024), g)
    }
}

/// Appends `scaled_size_text` of `size` with the given unit texts.
pub fn push_scaled_size(s: &mut String, size: u64, b: &str, k: &str, m: &str, g: &str)
    ensures
        final(s)@ == old(s)@ + scaled_size_text(size, b@, k@, m@, g@),
{
    if size < 1024 {
        push_decimal(s, size as u128);
        push_str(s, b);
        proof {
            assert(final(s)@ =~= old(s)@ + scaled_size_text(size, b@, k@, m@, g@));
        }
    } else {
        let (value, den): (u128, u128) = if size < 1024 * 1024 {
            (size as u128, 1024)
        } else if size < 1024 * 1024 * 1024 {
            (size as u128, 1024 * 1024)
        } else {
            (f64_value_exec(size), 1024 * 1024 * 1024)
        };
        let ghost s1 = s@;
        let tenths = round_half_even_exec(value * 10, den);
        push_tenths(s, tenths);
        if size < 1024 * 1024 {
            push_str(s, k);
        } else if size < 1024 * 1024 * 1024 {
            push_str(s, m);
        } else {
            push_str(s, g);
        }
        proof {
            assert(final(s)@ =~= old(s)@ + scaled_size_text(size, b@, k@, m@, g@));
        }
    }
}

} // verus!
