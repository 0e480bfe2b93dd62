use vstd::prelude::*;

verus! {

/// An exact decimal number, `mantissa / 10^scale`.
///
/// Version numbers such as `3.15` are kept as decimals (`{ mantissa: 315,
/// scale: 2 }`) so that the whole configuration can be compared and hashed
/// bit-for-bit.  A value is kept normalized: a fractional part never ends in
/// a zero digit, so each number has exactly one representation and equality
/// of values is equality of fields.
#[derive(Clone, Copy, Debug, PartialEq, Eq, Structural)]
pub struct Decimal {
    pub mantissa: u64,
    pub scale: u64,
}

/// Mathematical power of ten, used to bound and split decimal values.
pub open spec fn pow10(e: nat) -> nat
    decreases e,
{
    if e == 0 {
        1
    } else {
        10 * pow10((e - 1) as nat)
    }
}

pub proof fn lemma_pow10_pos(e: nat)
    ensures
        pow10(e) >= 1,
    decreases e,
{
    if e > 0 {
        lemma_pow10_pos((e - 1) as nat);
    }
}

pub proof fn lemma_pow10_mono(a: nat, b: nat)
    requires
        a <= b,
    ensures
        pow10(a) <= pow10(b),
    decreases b,
{
    if a < b {
        lemma_pow10_mono(a, (b - 1) as nat);
        lemma_pow10_pos((b - 1) as nat);
    }
}

pub proof fn lemma_pow10_19()
    ensures
        pow10(19) == 10000000000000000000,
{
    assert(pow10(19) == 10000000000000000000) by {
        reveal_with_fuel(pow10, 20);
    }
}

/// Normalization at the specification level: strip trailing zero digits
/// from the fractional part.
pub open spec fn spec_normalize(mantissa: u64, scale: u64) -> Decimal
    decreases scale,
{
    if scale == 0 || mantissa % 10 != 0 {
        Decimal { mantissa, scale }
    } else {
        spec_normalize(mantissa / 10, (scale - 1) as u64)
    }
}

impl Decimal {
    /// A decimal is well formed when its mantissa and scale stay in a range
    /// that every operation on decimals can represent, and no trailing
    /// fractional zero remains.
    pub open spec fn well_formed(self) -> bool {
        &&& self.mantissa < 1000000000000000000u64
        &&& self.scale <= 19
        &&& (self.scale > 0 ==> self.mantissa % 10 != 0)
    }

    /// Whether this decimal is well formed, decided at run time.
    pub fn check_well_formed(&self) -> (r: bool)
        ensures
            r == self.well_formed(),
    {
        self.mantissa < 1000000000000000000u64 && self.scale <= 19 && (self.scale == 0
            || self.mantissa % 10 != 0)
    }

    /// Build a normalized decimal from a raw mantissa and scale.
    pub fn new(mantissa: u64, scale: u64) -> (r: Decimal)
        requires
            scale <= 19,
        ensures
            r == spec_normalize(mantissa, scale),
            r.mantissa <= mantissa,
            r.scale <= scale,
            r.scale > 0 ==> r.mantissa % 10 != 0,
    {
        let mut m = mantissa;
        let mut s = scale;
        while s > 0 && m % 10 == 0
            invariant
                s <= scale,
                m <= mantissa,
                spec_normalize(m, s) == spec_normalize(mantissa, scale),
            decreases s,
        {
            m = m / 10;
            s = s - 1;
        }
        Decimal { mantissa: m, scale: s }
    }
}

} // verus!
