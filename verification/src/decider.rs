//! The screen-space acceptance decision.
//!
//! Whether a patch's projected footprint is small enough to stop subdividing
//! depends on the parametric surface function, the model-view-projection
//! matrix and the threshold factor — an opaque evaluation supplied by the
//! surrounding renderer. The pipeline only consumes its verdict, so it is
//! abstracted as a trait whose executable answer must agree with its own
//! specification; the pipeline's contracts are then exact for every decider.

use vstd::prelude::*;
use crate::MAX_DEPTH;
use crate::patch::EncodedPatch;

verus! {

/// Decides whether a patch's screen-space error is at or below the accept
/// threshold, i.e. whether it may become a leaf without further refinement.
pub trait SubdivisionDecider {
    /// What the decider answers, as a function of the patch.
    spec fn within_threshold_spec(&self, p: EncodedPatch) -> bool;

    /// The executable decision.
    fn within_threshold(&self, p: &EncodedPatch) -> (r: bool)
        requires
            p.wf(),
        ensures
            r == self.within_threshold_spec(*p),
    ;
}

/// Accepts every patch: the limit of an arbitrarily large threshold factor,
/// where every root is already fine enough.
pub struct AcceptAll {}

impl SubdivisionDecider for AcceptAll {
    open spec fn within_threshold_spec(&self, p: EncodedPatch) -> bool {
        true
    }

    fn within_threshold(&self, p: &EncodedPatch) -> (r: bool) {
        true
    }
}

/// Accepts no patch: the limit of a vanishing threshold factor, where only
/// the depth limit and the forced final round stop refinement.
pub struct AcceptNone {}

impl SubdivisionDecider for AcceptNone {
    open spec fn within_threshold_spec(&self, p: EncodedPatch) -> bool {
        false
    }

    fn within_threshold(&self, p: &EncodedPatch) -> (r: bool) {
        false
    }
}

/// Accepts exactly the patches at depth `min_leaf_depth` or deeper. Each
/// subdivision halves a patch's projected extent, so for a uniformly
/// projected surface the screen-space test is equivalent to a depth cutoff.
pub struct DepthCutoff {
    pub min_leaf_depth: u32,
}

impl SubdivisionDecider for DepthCutoff {
    open spec fn within_threshold_spec(&self, p: EncodedPatch) -> bool {
        p.depth() >= self.min_leaf_depth
    }

    fn within_threshold(&self, p: &EncodedPatch) -> (r: bool) {
        let d = p.decode_depth();
        d >= self.min_leaf_depth
    }
}

/// Integer model of the screen-space error measure: the root patch of every
/// instance projects to `root_side_pixels`, each subdivision halves that
/// extent, and a patch is accepted once its extent is at or below
/// `threshold_pixels`.
pub struct UniformScreenSize {
    pub root_side_pixels: u32,
    pub threshold_pixels: u32,
}

impl UniformScreenSize {
    /// Projected side length of a patch at the given depth.
    pub open spec fn side_at_depth(&self, depth: int) -> u32 {
        if 0 <= depth <= 32 {
            (self.root_side_pixels as int / crate::patch::pow2(depth as nat) as int) as u32
        } else {
            0
        }
    }
}

impl SubdivisionDecider for UniformScreenSize {
    open spec fn within_threshold_spec(&self, p: EncodedPatch) -> bool {
        self.side_at_depth(p.depth()) <= self.threshold_pixels
    }

    fn within_threshold(&self, p: &EncodedPatch) -> (r: bool) {
        let d = p.decode_depth();
        let mut side: u32 = self.root_side_pixels;
        let mut i: u32 = 0;
        proof {
            reveal_with_fuel(crate::patch::pow2, 1);
            assert(self.root_side_pixels as int / 1int == self.root_side_pixels as int);
        }
        while i < d
            invariant
                i <= d,
                d <= MAX_DEPTH,
                side as int == self.side_at_depth(i as int),
                side <= self.root_side_pixels,
            decreases d - i,
        {
            let ghost prev: int = i as int;
            side = side / 2;
            i = i + 1;
            proof {
                crate::patch::lemma_pow2_positive(prev as nat);
                crate::patch::lemma_pow2_positive(i as nat);
                lemma_halving_tracks_pow2(self.root_side_pixels as nat, i as nat);
                vstd::arithmetic::div_mod::lemma_div_is_ordered_by_denominator(
                    self.root_side_pixels as int,
                    1,
                    crate::patch::pow2(i as nat) as int,
                );
            }
        }
        side <= self.threshold_pixels
    }
}

/// Halving a value `n` times equals dividing by `2^n`.
proof fn lemma_halving_tracks_pow2(x: nat, n: nat)
    requires
        n >= 1,
    ensures
        x / crate::patch::pow2((n - 1) as nat) / 2 == x / crate::patch::pow2(n),
{
    crate::patch::lemma_pow2_positive((n - 1) as nat);
    assert(crate::patch::pow2(n) == crate::patch::pow2((n - 1) as nat) * 2) by {
        reveal_with_fuel(crate::patch::pow2, 2);
        assert(2 * crate::patch::pow2((n - 1) as nat) == crate::patch::pow2((n - 1) as nat) * 2);
    }
    vstd::arithmetic::div_mod::lemma_div_denominator(
        x as int,
        crate::patch::pow2((n - 1) as nat) as int,
        2,
    );
}

} // verus!
