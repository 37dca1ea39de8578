use vstd::prelude::*;

verus! {

// Divergence values are held as the bit patterns of IEEE-754 binary64 numbers,
// so that their order and classification are plain integer facts.
pub const SIGN_BIT: u64 = 0x8000_0000_0000_0000;

pub const EXPONENT_UNIT: u64 = 0x0010_0000_0000_0000;

/// The biased exponent field of a binary64 bit pattern.
pub open spec fn exponent_of(bits: u64) -> nat {
    ((bits as nat) / (EXPONENT_UNIT as nat)) % 2048
}

/// A pattern whose exponent field is not all ones is a finite number.
pub open spec fn is_finite_bits(bits: u64) -> bool {
    exponent_of(bits) != 2047
}

/// The key of the IEEE-754 total order: a pattern with the sign bit set has
/// all bits flipped, any other has its sign bit set; keys compare as integers.
pub open spec fn total_key(bits: u64) -> nat {
    if bits >= SIGN_BIT {
        (u64::MAX - bits) as nat
    } else {
        (bits + SIGN_BIT) as nat
    }
}

/// `a` is at or below `b` in the total order.
pub open spec fn total_le(a: u64, b: u64) -> bool {
    total_key(a) <= total_key(b)
}

/// Both patterns are zeros of either sign, or the same pattern: the two
/// finite numbers are equal.
pub open spec fn same_number(a: u64, b: u64) -> bool {
    a == b || ((a == 0 || a == SIGN_BIT) && (b == 0 || b == SIGN_BIT))
}

/// Classifies a binary64 pattern as finite.
pub fn is_finite(bits: u64) -> (r: bool)
    ensures
        r == is_finite_bits(bits),
{
    (bits / EXPONENT_UNIT) % 2048 != 2047
}

/// The key under which binary64 patterns are compared.
pub fn order_key(bits: u64) -> (r: u64)
    ensures
        r as nat == total_key(bits),
{
    if bits >= SIGN_BIT {
        u64::MAX - bits
    } else {
        bits + SIGN_BIT
    }
}

/// The least and greatest divergence values of a buffer, as binary64 patterns.
#[derive(Clone, Copy, Debug, PartialEq, Eq, Structural)]
pub struct GlobalRange {
    pub min: u64,
    pub max: u64,
}

impl GlobalRange {
    /// `min` and `max` are values of `values`, and every value lies between them.
    pub open spec fn bounds(self, values: Seq<u64>) -> bool {
        &&& exists|i: int| 0 <= i < values.len() && values[i] == self.min
        &&& exists|i: int| 0 <= i < values.len() && values[i] == self.max
        &&& forall|i: int|
            0 <= i < values.len() ==> total_le(self.min, #[trigger] values[i]) && total_le(
                values[i],
                self.max,
            )
    }

    /// The range spans no width: its ends are the same number.
    pub fn is_degenerate(&self) -> (r: bool)
        ensures
            r == same_number(self.min, self.max),
    {
        self.min == self.max || ((self.min == 0 || self.min == SIGN_BIT) && (self.max == 0
            || self.max == SIGN_BIT))
    }
}

/// Every value of the buffer is finite.
pub open spec fn all_finite(values: Seq<u64>) -> bool {
    forall|i: int| 0 <= i < values.len() ==> is_finite_bits(#[trigger] values[i])
}

/// The global range of a fully written divergence buffer, under the IEEE-754
/// total order. A buffer that is empty or holds an infinity or a NaN has no
/// range: the run is rejected rather than coloured from non-numeric values.
pub fn global_range(values: &Vec<u64>) -> (r: Option<GlobalRange>)
    ensures
        r.is_some() <==> values@.len() > 0 && all_finite(values@),
        r matches Some(g) ==> g.bounds(values@),
{
    if values.len() == 0 {
        return None;
    }
    let mut lo: u64 = values[0];
    let mut hi: u64 = values[0];
    let ghost mut lo_at: int = 0;
    let ghost mut hi_at: int = 0;
    let mut i: usize = 0;
    while i < values.len()
        invariant
            0 < values@.len(),
            i <= values@.len(),
            0 <= lo_at < values@.len(),
            0 <= hi_at < values@.len(),
            values@[lo_at] == lo,
            values@[hi_at] == hi,
            forall|j: int| 0 <= j < i ==> is_finite_bits(#[trigger] values@[j]),
            forall|j: int|
                0 <= j < i ==> total_le(lo, #[trigger] values@[j]) && total_le(values@[j], hi),
        decreases values@.len() - i,
    {
        let v = values[i];
        if !is_finite(v) {
            return None;
        }
        if order_key(v) < order_key(lo) {
            lo = v;
            proof {
                lo_at = i as int;
            }
        }
        if order_key(v) > order_key(hi) {
            hi = v;
            proof {
                hi_at = i as int;
            }
        }
        i = i + 1;
    }
    Some(GlobalRange { min: lo, max: hi })
}

/// After the range is computed, every value of the buffer lies within it.
pub proof fn lemma_values_within_range(values: Seq<u64>, g: GlobalRange, i: int)
    requires
        g.bounds(values),
        0 <= i < values.len(),
    ensures
        total_key(g.min) <= total_key(values[i]) <= total_key(g.max),
{
}

/// Distinct patterns have distinct keys: the total order is antisymmetric.
pub proof fn lemma_total_key_injective(a: u64, b: u64)
    requires
        total_key(a) == total_key(b),
    ensures
        a == b,
{
}

/// A buffer has at most one global range.
pub proof fn lemma_range_unique(values: Seq<u64>, g1: GlobalRange, g2: GlobalRange)
    requires
        g1.bounds(values),
        g2.bounds(values),
    ensures
        g1 == g2,
{
    let i1 = choose|i: int| 0 <= i < values.len() && values[i] == g1.min;
    let i2 = choose|i: int| 0 <= i < values.len() && values[i] == g2.min;
    let j1 = choose|i: int| 0 <= i < values.len() && values[i] == g1.max;
    let j2 = choose|i: int| 0 <= i < values.len() && values[i] == g2.max;
    assert(total_le(g1.min, values[i2]));
    assert(total_le(g2.min, values[i1]));
    assert(total_le(values[j2], g1.max));
    assert(total_le(values[j1], g2.max));
    lemma_total_key_injective(g1.min, g2.min);
    lemma_total_key_injective(g1.max, g2.max);
}

} // verus!
