use vstd::prelude::*;
use vstd::arithmetic::power2::pow2;

use crate::parameters::{bit_length, le_value, magnitude_bits};

verus! {

/// `BigUint::from_bytes_le(v) >> n`, as little-endian bytes: the value
/// divided by `2^n`, rounded down.
#[verifier::external_body]
fn big_shr(v: &Vec<u8>, n: usize) -> (r: Vec<u8>)
    ensures
        le_value(r@) == le_value(v@) / pow2(n as nat),
{
    (num_bigint::BigUint::from_bytes_le(v.as_slice()) >> n).to_bytes_le()
}

/// `BigUint::from_bytes_le(v) << n`, as little-endian bytes: the value
/// times `2^n`.
#[verifier::external_body]
fn big_shl(v: &Vec<u8>, n: usize) -> (r: Vec<u8>)
    ensures
        le_value(r@) == le_value(v@) * pow2(n as nat),
{
    (num_bigint::BigUint::from_bytes_le(v.as_slice()) << n).to_bytes_le()
}

/// `BigUint::from(1u32) << n`, as little-endian bytes: `2^n`.
#[verifier::external_body]
fn big_pow2(n: usize) -> (r: Vec<u8>)
    ensures
        le_value(r@) == pow2(n as nat),
{
    (num_bigint::BigUint::from(1u32) << n).to_bytes_le()
}

/// `&a % &b` on the values of the bytes, as little-endian bytes; the
/// divisor is not zero.
#[verifier::external_body]
fn big_rem(a: &Vec<u8>, b: &Vec<u8>) -> (r: Vec<u8>)
    requires
        le_value(b@) > 0,
    ensures
        le_value(r@) == le_value(a@) % le_value(b@),
{
    let x = num_bigint::BigUint::from_bytes_le(a.as_slice());
    let y = num_bigint::BigUint::from_bytes_le(b.as_slice());
    (&x % &y).to_bytes_le()
}

/// `a + b` on the values of the bytes, as little-endian bytes.
#[verifier::external_body]
fn big_add(a: &Vec<u8>, b: &Vec<u8>) -> (r: Vec<u8>)
    ensures
        le_value(r@) == le_value(a@) + le_value(b@),
{
    let x = num_bigint::BigUint::from_bytes_le(a.as_slice());
    let y = num_bigint::BigUint::from_bytes_le(b.as_slice());
    (x + y).to_bytes_le()
}

/// A value expressed in `w` bits is one below `2^w`.
proof fn lemma_bit_length_bound(n: nat, w: nat)
    ensures
        bit_length(n) <= w <==> n < pow2(w),
    decreases n,
{
    vstd::arithmetic::power2::lemma_pow2_pos(w);
    if n == 0 {
    } else if w == 0 {
        vstd::arithmetic::power2::lemma2_to64();
    } else {
        lemma_bit_length_bound(n / 2, (w - 1) as nat);
        vstd::arithmetic::power2::lemma_pow2_unfold(w);
    }
}

/// A constant tied to a port slice: a value below `2^width`, as the
/// little-endian bytes of its magnitude.
pub struct Tieoff {
    pub value: Vec<u8>,
    pub width: usize,
}

impl Tieoff {
    /// The value fits in the width.
    pub open spec fn wf(self) -> bool {
        le_value(self.value@) < pow2(self.width as nat)
    }

    /// The value as a number.
    pub open spec fn value_of(self) -> nat {
        le_value(self.value@)
    }

    /// A tie-off of `value` on `width` bits; the value must fit.
    pub fn new(value: Vec<u8>, width: usize) -> (r: Tieoff)
        requires
            le_value(value@) < pow2(width as nat),
        ensures
            r.wf(),
            r.value@ == value@,
            r.width == width,
    {
        Tieoff { value, width }
    }

    /// A tie-off of `value` on `width` bits, or `None` where the value
    /// needs more bits.
    pub fn try_new(value: Vec<u8>, width: usize) -> (r: Option<Tieoff>)
        ensures
            le_value(value@) < pow2(width as nat) ==> (r matches Some(t) && t.value@ == value@ && t.width == width),
            le_value(value@) >= pow2(width as nat) ==> r is None,
            r matches Some(t) ==> t.wf(),
    {
        let bits = magnitude_bits(&value);
        proof {
            lemma_bit_length_bound(le_value(value@), width as nat);
        }
        if bits <= width as u64 {
            Some(Tieoff { value, width })
        } else {
            None
        }
    }

    /// The `width` bits of this tie-off from bit `offset` up.
    pub fn slice_with_offset_and_width(&self, offset: usize, width: usize) -> (r: Tieoff)
        ensures
            r.wf(),
            r.width == width,
            r.value_of() == (self.value_of() / pow2(offset as nat)) % pow2(width as nat),
    {
        let shifted = big_shr(&self.value, offset);
        let modulus = big_pow2(width);
        proof {
            vstd::arithmetic::power2::lemma_pow2_pos(width as nat);
        }
        let value = big_rem(&shifted, &modulus);
        Tieoff { value, width }
    }

    /// This tie-off above `other`: the widths add up and this value takes
    /// the upper bits.
    pub fn try_merge(&self, other: &Tieoff) -> (r: Option<Tieoff>)
        requires
            self.wf(),
            other.wf(),
            self.width + other.width <= usize::MAX,
        ensures
            r matches Some(t) && t.wf() && t.width == self.width + other.width && t.value_of()
                == self.value_of() * pow2(other.width as nat) + other.value_of(),
    {
        let upper = big_shl(&self.value, other.width);
        let value = big_add(&upper, &other.value);
        let width = self.width + other.width;
        proof {
            let a = self.value_of();
            let b = other.value_of();
            let pa = pow2(self.width as nat);
            let pb = pow2(other.width as nat);
            vstd::arithmetic::power2::lemma_pow2_adds(self.width as nat, other.width as nat);
            assert(a * pb + b < pa * pb) by (nonlinear_arith)
                requires
                    a < pa,
                    b < pb,
            {
                assert(a * pb <= (pa - 1) * pb);
            }
        }
        Some(Tieoff { value, width })
    }
}

} // verus!
