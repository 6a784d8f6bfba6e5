//! Unit scaling: mapping a raw byte count to a human-scaled magnitude.
//!
//! Magnitudes are held as integers in milli-units: a sample of `1536` bytes
//! scaled to the kilo prefix becomes `1500` milli-units, rendered as `1.5K`.
//! The prefix for the memory chart is chosen once from total physical memory
//! and reused for every later sample, so the chart's y-axis label stays
//! stable across a run.

use vstd::prelude::*;

use vstd::arithmetic::div_mod::{
    lemma_div_denominator, lemma_fundamental_div_mod, lemma_multiply_divide_lt,
};
use vstd::arithmetic::mul::lemma_mul_inequality;

verus! {

/// 1024 to the `k`-th power: the step between two neighbouring prefixes.
pub open spec fn pow1024(k: nat) -> nat
    decreases k,
{
    if k == 0 {
        1
    } else {
        1024 * pow1024((k - 1) as nat)
    }
}

/// `bytes` expressed in milli-units of the prefix with exponent `k`,
/// rounded down.
pub open spec fn scaled_milli(bytes: nat, k: nat) -> nat {
    bytes * 1000 / pow1024(k)
}

/// The exponent of the smallest prefix under which `bytes` reads below 1024:
/// 0 while `bytes < 1024`, one more for each further division by 1024.
pub open spec fn best_exp(bytes: nat) -> nat
    decreases bytes,
{
    if bytes < 1024 {
        0
    } else {
        1 + best_exp(bytes / 1024)
    }
}

/// `best_exp`, capped at the largest prefix on offer (peta).
pub open spec fn best_prefix_exp(bytes: nat) -> nat {
    if best_exp(bytes) < 5 {
        best_exp(bytes)
    } else {
        5
    }
}

/// A binary unit prefix: byte, kibi, mebi, gibi, tebi or pebi.
#[derive(Debug, Clone, Copy, PartialEq, Eq, Structural)]
pub enum MemPrefix {
    Byte,
    Kilo,
    Mega,
    Giga,
    Tera,
    Peta,
}

impl MemPrefix {
    /// How many times 1024 divides a quantity rendered under this prefix.
    pub open spec fn exp(self) -> nat {
        match self {
            MemPrefix::Byte => 0,
            MemPrefix::Kilo => 1,
            MemPrefix::Mega => 2,
            MemPrefix::Giga => 3,
            MemPrefix::Tera => 4,
            MemPrefix::Peta => 5,
        }
    }

    /// The prefix with the given exponent, for exponents up to 5.
    pub open spec fn from_exp(k: nat) -> MemPrefix {
        if k == 0 {
            MemPrefix::Byte
        } else if k == 1 {
            MemPrefix::Kilo
        } else if k == 2 {
            MemPrefix::Mega
        } else if k == 3 {
            MemPrefix::Giga
        } else if k == 4 {
            MemPrefix::Tera
        } else {
            MemPrefix::Peta
        }
    }

    /// The next larger prefix; peta saturates.
    pub fn next(self) -> (r: MemPrefix)
        ensures
            r.exp() == if self.exp() < 5 { self.exp() + 1 } else { 5nat },
    {
        match self {
            MemPrefix::Byte => MemPrefix::Kilo,
            MemPrefix::Kilo => MemPrefix::Mega,
            MemPrefix::Mega => MemPrefix::Giga,
            MemPrefix::Giga => MemPrefix::Tera,
            MemPrefix::Tera => MemPrefix::Peta,
            MemPrefix::Peta => MemPrefix::Peta,
        }
    }

    /// The letter shown next to a scaled magnitude.
    pub open spec fn prefix_char(self) -> char {
        match self {
            MemPrefix::Byte => 'B',
            MemPrefix::Kilo => 'K',
            MemPrefix::Mega => 'M',
            MemPrefix::Giga => 'G',
            MemPrefix::Tera => 'T',
            MemPrefix::Peta => 'P',
        }
    }

    /// The letter shown next to a scaled magnitude.
    pub fn prefix(self) -> (r: char)
        ensures
            r == self.prefix_char(),
    {
        match self {
            MemPrefix::Byte => 'B',
            MemPrefix::Kilo => 'K',
            MemPrefix::Mega => 'M',
            MemPrefix::Giga => 'G',
            MemPrefix::Tera => 'T',
            MemPrefix::Peta => 'P',
        }
    }

    /// The exponent of this prefix as a run-time value.
    pub fn exponent(self) -> (r: u32)
        ensures
            r == self.exp(),
    {
        match self {
            MemPrefix::Byte => 0,
            MemPrefix::Kilo => 1,
            MemPrefix::Mega => 2,
            MemPrefix::Giga => 3,
            MemPrefix::Tera => 4,
            MemPrefix::Peta => 5,
        }
    }

    /// The prefix under which `bytes` reads below 1024 (peta if none does),
    /// and `bytes` scaled to that prefix, in milli-units.
    pub fn find_best(bytes: u64) -> (r: (u64, MemPrefix))
        ensures
            r.1 == MemPrefix::from_exp(best_prefix_exp(bytes as nat)),
            r.0 == scaled_milli(bytes as nat, r.1.exp()),
    {
        let mut e: u32 = 0;
        let mut rem: u64 = bytes;
        proof {
            vstd::arithmetic::div_mod::lemma_div_basics(bytes as int);
        }
        while rem >= 1024 && e < 5
            invariant
                e <= 5,
                rem == bytes as nat / pow1024(e as nat),
                best_exp(bytes as nat) == e + best_exp(rem as nat),
            decreases 5 - e,
        {
            proof {
                lemma_pow1024_pos(e as nat);
                lemma_div_denominator(bytes as int, pow1024(e as nat) as int, 1024);
                assert(pow1024(e as nat) * 1024 == pow1024((e + 1) as nat)) by {
                    lemma_pow1024_step(e as nat);
                };
            }
            rem = rem / 1024;
            e = e + 1;
        }
        let prefix = match e {
            0 => MemPrefix::Byte,
            1 => MemPrefix::Kilo,
            2 => MemPrefix::Mega,
            3 => MemPrefix::Giga,
            4 => MemPrefix::Tera,
            _ => MemPrefix::Peta,
        };
        proof {
            assert(prefix == MemPrefix::from_exp(best_prefix_exp(bytes as nat)) && prefix.exp()
                == e) by {
                if rem < 1024 {
                    assert(best_exp(rem as nat) == 0);
                } else {
                    assert(e == 5 && best_exp(bytes as nat) >= 5);
                }
            };
        }
        let p = pow1024_exec(e);
        let milli_wide: u128 = (bytes as u128) * 1000 / (p as u128);
        proof {
            lemma_scaled_fits(bytes as nat, e as nat);
            assert(milli_wide == scaled_milli(bytes as nat, e as nat));
        }
        (milli_wide as u64, prefix)
    }

    /// `bytes` expressed in milli-units of this prefix, rounded down;
    /// saturates at `u64::MAX` (unreachable for the prefix chosen from a
    /// larger total).
    pub fn convert(self, bytes: u64) -> (r: u64)
        ensures
            r as nat == if scaled_milli(bytes as nat, self.exp()) <= u64::MAX as nat {
                scaled_milli(bytes as nat, self.exp())
            } else {
                u64::MAX as nat
            },
    {
        let e = self.exponent();
        let p = pow1024_exec(e);
        let q: u128 = (bytes as u128) * 1000 / (p as u128);
        proof {
            lemma_pow1024_pos(e as nat);
            assert(q == scaled_milli(bytes as nat, self.exp()));
        }
        if q > u64::MAX as u128 {
            u64::MAX
        } else {
            q as u64
        }
    }
}

/// The characters `best_string` renders for a byte count: the magnitude
/// under its best prefix with one (rounded) decimal place, then the prefix
/// letter.
pub open spec fn best_chars(bytes: nat) -> Seq<char> {
    let e = best_prefix_exp(bytes);
    let tenths = crate::text::milli_tenths(scaled_milli(bytes, e));
    crate::text::dec_rep(tenths / 10) + seq!['.'] + seq![crate::text::digit_char(tenths % 10)]
        + seq![MemPrefix::from_exp(e).prefix_char()]
}

impl MemPrefix {
    /// Render a byte count under its best prefix: `1536` becomes `1.5K`.
    pub fn best_string(bytes: u64) -> (r: String)
        ensures
            r@ == best_chars(bytes as nat),
    {
        let (milli, prefix) = MemPrefix::find_best(bytes);
        let mut s = crate::text::fmt_milli(milli);
        crate::text::push_char(&mut s, prefix.prefix());
        proof {
            assert(s@ =~= best_chars(bytes as nat));
        }
        s
    }
}

/// `pow1024` is positive.
proof fn lemma_pow1024_pos(k: nat)
    ensures
        pow1024(k) >= 1,
    decreases k,
{
    if k > 0 {
        lemma_pow1024_pos((k - 1) as nat);
    }
}

/// Unfolding `pow1024` by one step from above.
proof fn lemma_pow1024_step(k: nat)
    ensures
        pow1024(k) * 1024 == pow1024(k + 1),
{
    assert(pow1024(k + 1) == 1024 * pow1024(k));
}

/// The powers of 1024 up to the peta prefix, as literals.
proof fn lemma_pow1024_values()
    ensures
        pow1024(0) == 1,
        pow1024(1) == 1024,
        pow1024(2) == 0x100000,
        pow1024(3) == 0x40000000,
        pow1024(4) == 0x10000000000,
        pow1024(5) == 0x4000000000000,
{
    assert(pow1024(1) == 1024 * pow1024(0));
    assert(pow1024(2) == 1024 * pow1024(1));
    assert(pow1024(3) == 1024 * pow1024(2));
    assert(pow1024(4) == 1024 * pow1024(3));
    assert(pow1024(5) == 1024 * pow1024(4));
}

/// For the exponent `find_best` settles on, the scaled magnitude is small.
proof fn lemma_scaled_fits(bytes: nat, e: nat)
    requires
        bytes <= u64::MAX,
        e <= 5,
        e == 5 || bytes / pow1024(e) < 1024,
    ensures
        scaled_milli(bytes, e) <= 1_100_000_000,
{
    lemma_pow1024_pos(e);
    let p = pow1024(e) as int;
    if e == 5 {
        lemma_pow1024_values();
        lemma_mul_inequality(bytes as int, u64::MAX as int, 1000);
        assert((u64::MAX as int) * 1000 < 0x4000000000000int * 17_000_000);
        lemma_multiply_divide_lt(bytes as int * 1000, p, 17_000_000);
    } else {
        let q = bytes as int / p;
        let r = bytes as int % p;
        lemma_fundamental_div_mod(bytes as int, p);
        vstd::arithmetic::div_mod::lemma_mod_division_less_than_divisor(bytes as int, p);
        assert(bytes * 1000 < p * 1024000) by (nonlinear_arith)
            requires
                bytes as int == p * q + r,
                0 <= r < p,
                q < 1024,
                p > 0,
        ;
        lemma_multiply_divide_lt(bytes as int * 1000, p, 1024000);
    }
}

/// 1024 to the `e`-th power as a run-time value, for exponents up to 5.
fn pow1024_exec(e: u32) -> (r: u64)
    requires
        e <= 5,
    ensures
        r == pow1024(e as nat),
        r >= 1,
{
    proof {
        lemma_pow1024_values();
    }
    match e {
        0 => 1,
        1 => 1024,
        2 => 0x100000,
        3 => 0x40000000,
        4 => 0x10000000000,
        _ => 0x4000000000000,
    }
}

} // verus!
