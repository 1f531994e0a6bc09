//! Quadtree-addressed patches.
//!
//! A patch is a sub-rectangle of a parametric surface's UV domain. Each axis
//! is addressed by an unsigned integer whose bits record a path of binary
//! subdivisions, with a fixed leading sentinel bit marking the root, so the
//! bit length minus the sentinel equals the subdivision depth. The root patch
//! of an instance is `u == v == 1`: the sentinel alone, the full domain.

use vstd::prelude::*;
use crate::MAX_DEPTH;

verus! {

/// Number of bits needed to write `x`: 0 for 0, and one more than for `x / 2`
/// otherwise.
pub open spec fn bit_len(x: nat) -> nat
    decreases x,
{
    if x == 0 {
        0
    } else {
        bit_len(x / 2) + 1
    }
}

/// `2^n`, used to bound an address of a known bit length.
pub open spec fn pow2(n: nat) -> nat
    decreases n,
{
    if n == 0 {
        1
    } else {
        2 * pow2((n - 1) as nat)
    }
}

/// An address of bit length at most `n` is below `2^n`.
pub proof fn lemma_bit_len_bounds_value(x: nat, n: nat)
    requires
        bit_len(x) <= n,
    ensures
        x < pow2(n),
    decreases x,
{
    if x == 0 {
        lemma_pow2_positive(n);
    } else {
        lemma_bit_len_bounds_value(x / 2, (n - 1) as nat);
    }
}

pub proof fn lemma_pow2_positive(n: nat)
    ensures
        pow2(n) >= 1,
    decreases n,
{
    if n > 0 {
        lemma_pow2_positive((n - 1) as nat);
    }
}

/// A non-zero address has at least its sentinel bit.
pub proof fn lemma_bit_len_positive(x: nat)
    requires
        x >= 1,
    ensures
        bit_len(x) >= 1,
{
}

/// Appending one subdivision bit to a non-zero address lengthens it by
/// exactly one bit.
pub proof fn lemma_bit_len_step(x: nat, b: nat)
    requires
        x >= 1,
        b < 2,
    ensures
        bit_len(2 * x + b) == bit_len(x) + 1,
{
    assert((2 * x + b) / 2 == x) by (nonlinear_arith)
        requires
            b < 2,
    ;
}

/// An encoded patch: a quadtree address on each axis, plus the identifier of
/// the root instance this patch descends from.
#[derive(Clone, Copy, PartialEq, Eq, Structural, Debug)]
pub struct EncodedPatch {
    pub u: u32,
    pub v: u32,
    pub instance: u32,
}

impl EncodedPatch {
    /// Subdivision depth encoded by the address: bit length minus the
    /// sentinel bit.
    pub open spec fn depth(self) -> int {
        bit_len(self.u as nat) - 1
    }

    /// Both axes carry the sentinel bit, record the same number of
    /// subdivisions, and stay within the fixed round budget.
    pub open spec fn wf(self) -> bool {
        &&& self.u >= 1
        &&& self.v >= 1
        &&& bit_len(self.u as nat) == bit_len(self.v as nat)
        &&& self.depth() <= MAX_DEPTH
    }

    pub open spec fn root_spec(instance: u32) -> EncodedPatch {
        EncodedPatch { u: 1, v: 1, instance }
    }

    /// The root patch of one instance: the sentinel bit alone on both axes,
    /// meaning the full untessellated domain.
    pub fn root(instance: u32) -> (p: EncodedPatch)
        ensures
            p == EncodedPatch::root_spec(instance),
            p.wf(),
            p.depth() == 0,
    {
        proof {
            reveal_with_fuel(bit_len, 3);
        }
        EncodedPatch { u: 1, v: 1, instance }
    }

    /// The quadrant child whose address appends `ubit` to the `u` axis and
    /// `vbit` to the `v` axis.
    pub open spec fn child_spec(self, ubit: bool, vbit: bool) -> EncodedPatch {
        EncodedPatch {
            u: (2 * self.u + if ubit { 1int } else { 0int }) as u32,
            v: (2 * self.v + if vbit { 1int } else { 0int }) as u32,
            instance: self.instance,
        }
    }

    /// A well-formed patch's addresses are bounded by its depth, so
    /// appending one subdivision bit cannot overflow the address.
    pub proof fn lemma_address_bounded(self)
        requires
            self.wf(),
        ensures
            self.u < pow2((self.depth() + 1) as nat),
            self.v < pow2((self.depth() + 1) as nat),
            pow2(MAX_DEPTH as nat) == 256,
            pow2((MAX_DEPTH + 1) as nat) == 512,
    {
        lemma_bit_len_bounds_value(self.u as nat, bit_len(self.u as nat));
        lemma_bit_len_bounds_value(self.v as nat, bit_len(self.v as nat));
        assert(pow2(MAX_DEPTH as nat) == 256 && pow2((MAX_DEPTH + 1) as nat) == 512) by {
            reveal_with_fuel(pow2, 10);
        }
    }

    /// A child is one level deeper than its parent and stays well formed.
    pub proof fn lemma_child_wf(self, ubit: bool, vbit: bool)
        requires
            self.wf(),
            self.depth() < MAX_DEPTH,
        ensures
            self.child_spec(ubit, vbit).wf(),
            self.child_spec(ubit, vbit).depth() == self.depth() + 1,
            self.child_spec(ubit, vbit).instance == self.instance,
    {
        self.lemma_address_bounded();
        lemma_pow2_monotonic((self.depth() + 1) as nat, MAX_DEPTH as nat);
        lemma_bit_len_step(self.u as nat, if ubit { 1nat } else { 0nat });
        lemma_bit_len_step(self.v as nat, if vbit { 1nat } else { 0nat });
    }

    /// Subdivide towards the quadrant selected by the two bits.
    pub fn child(&self, ubit: bool, vbit: bool) -> (c: EncodedPatch)
        requires
            self.wf(),
            self.depth() < MAX_DEPTH,
        ensures
            c == self.child_spec(ubit, vbit),
            c.wf(),
            c.depth() == self.depth() + 1,
    {
        proof {
            self.lemma_address_bounded();
            lemma_pow2_monotonic((self.depth() + 1) as nat, MAX_DEPTH as nat);
            self.lemma_child_wf(ubit, vbit);
        }
        EncodedPatch {
            u: 2 * self.u + if ubit { 1 } else { 0 },
            v: 2 * self.v + if vbit { 1 } else { 0 },
            instance: self.instance,
        }
    }

    /// Decode the subdivision depth from the `u` address: the number of
    /// bits after the sentinel.
    pub fn decode_depth(&self) -> (d: u32)
        requires
            self.wf(),
        ensures
            d as int == self.depth(),
            d <= MAX_DEPTH,
    {
        let mut x: u32 = self.u;
        let mut d: u32 = 0;
        proof {
            reveal_with_fuel(bit_len, 2);
        }
        while x > 1
            invariant
                x >= 1,
                bit_len(self.u as nat) == bit_len(x as nat) + d,
                bit_len(self.u as nat) <= MAX_DEPTH + 1,
            decreases x,
        {
            proof {
                reveal_with_fuel(bit_len, 2);
            }
            x = x / 2;
            d = d + 1;
        }
        proof {
            reveal_with_fuel(bit_len, 2);
        }
        d
    }
}

pub proof fn lemma_pow2_monotonic(m: nat, n: nat)
    requires
        m <= n,
    ensures
        pow2(m) <= pow2(n),
    decreases n,
{
    if m < n {
        lemma_pow2_monotonic(m, (n - 1) as nat);
        lemma_pow2_positive((n - 1) as nat);
    }
}

} // verus!
