//! The scalars of a recombining lattice and the backward step over one layer.

use crate::fixed::{
    fx_add, fx_div, fx_mul, fx_pow, fx_sub, lemma_fx_div_unit_interval, Fixed, SCALE,
};
use vstd::arithmetic::div_mod::lemma_div_pos_is_pos;
use vstd::prelude::*;

verus! {

/// The scalars that are fixed for a whole lattice: the factor of an up move,
/// the factor of a down move, the weight of the up branch, and the discount
/// over one time step.
#[derive(Clone, Copy, Debug, PartialEq, Eq, Structural)]
pub struct LatticeFactors {
    pub up_factor: Fixed,
    pub down_factor: Fixed,
    pub risk_neutral_probability: Fixed,
    pub discount_factor: Fixed,
}

impl LatticeFactors {
    /// The branch weights lie between zero and one and the discount is not
    /// negative, so that a backward step is an average scaled by a
    /// non-negative number.
    pub open spec fn weights_are_convex(self) -> bool {
        &&& 0 <= self.risk_neutral_probability@ <= SCALE
        &&& 0 <= self.discount_factor@
    }

    /// Neither move turns a non-negative price into a negative one.
    pub open spec fn moves_are_nonnegative(self) -> bool {
        &&& 0 <= self.up_factor@
        &&& 0 <= self.down_factor@
    }

    /// The lattice admits no arbitrage: its weights are convex and its
    /// moves are not negative. Prices on such a lattice are never negative,
    /// and they follow the spot price in the direction of the payoff.
    pub open spec fn is_arbitrage_free(self) -> bool {
        self.weights_are_convex() && self.moves_are_nonnegative()
    }

    /// Tells whether the lattice admits no arbitrage.
    pub fn admits_no_arbitrage(&self) -> (b: bool)
        ensures
            b == self.is_arbitrage_free(),
    {
        let p: i128 = self.risk_neutral_probability.raw();
        0 <= p && p <= SCALE && 0 <= self.discount_factor.raw() && 0 <= self.up_factor.raw() && 0
            <= self.down_factor.raw()
    }

    /// The factors are those of the lattice whose up factor is `up`, whose
    /// growth over one step is `growth` and whose discount over one step is
    /// `discount`: the down factor is `1 / up`, and the weight of the up
    /// branch is `(growth - down) / (up - down)`.
    pub open spec fn is_derived_from(self, up: int, growth: int, discount: int) -> bool {
        let down: int = fx_div(SCALE as int, up);
        &&& self.up_factor@ == up
        &&& self.down_factor@ == down
        &&& self.risk_neutral_probability@ == fx_div(fx_sub(growth, down), fx_sub(up, down))
        &&& self.discount_factor@ == discount
    }

    /// The factors of the lattice with the given up factor, growth over one
    /// step and discount over one step.
    ///
    /// Where the growth lies between the down factor and a larger, positive
    /// up factor and the discount is not negative, the lattice admits no
    /// arbitrage: its weights are convex and its moves are not negative.
    pub fn from_exponentials(up: Fixed, growth: Fixed, discount: Fixed) -> (factors: LatticeFactors)
        ensures
            factors.is_derived_from(up@, growth@, discount@),
            0 < up@ && 0 <= discount@ && factors.down_factor@ <= growth@ <= up@
                && factors.down_factor@ < up@ ==> factors.is_arbitrage_free(),
    {
        proof {
            let down_value: int = fx_div(SCALE as int, up@);
            if 0 < up@ && 0 <= discount@ && down_value <= growth@ <= up@ && down_value < up@ {
                lemma_div_pos_is_pos(2 * SCALE * SCALE + up@, 2 * up@);
                lemma_fx_div_unit_interval(fx_sub(growth@, down_value), fx_sub(up@, down_value));
            }
        }
        let down: Fixed = Fixed::one().saturating_div(up);
        let probability: Fixed = growth.saturating_sub(down).saturating_div(
            up.saturating_sub(down),
        );
        LatticeFactors {
            up_factor: up,
            down_factor: down,
            risk_neutral_probability: probability,
            discount_factor: discount,
        }
    }

    /// Price of the asset after `i` up moves and `steps - i` down moves from
    /// `underlying`.
    pub open spec fn asset_price(self, underlying: int, steps: nat, i: nat) -> int {
        let downs: nat = if i <= steps {
            (steps - i) as nat
        } else {
            0
        };
        fx_mul(fx_mul(underlying, fx_pow(self.up_factor@, i)), fx_pow(self.down_factor@, downs))
    }

    /// Value of a node whose up successor is worth `up_value` and whose down
    /// successor is worth `down_value`:
    /// `(p * up_value + (1 - p) * down_value) * discount`.
    pub open spec fn expectation(self, up_value: int, down_value: int) -> int {
        let p: int = self.risk_neutral_probability@;
        fx_mul(
            fx_add(fx_mul(p, up_value), fx_mul(fx_sub(SCALE as int, p), down_value)),
            self.discount_factor@,
        )
    }

    /// Discounted expectation of the two successor values of one node.
    pub fn discounted_expectation(&self, up_value: Fixed, down_value: Fixed) -> (r: Fixed)
        ensures
            r@ == self.expectation(up_value@, down_value@),
    {
        let p: Fixed = self.risk_neutral_probability;
        let q: Fixed = Fixed::one().saturating_sub(p);
        let mean: Fixed = p.saturating_mul(up_value).saturating_add(q.saturating_mul(down_value));
        mean.saturating_mul(self.discount_factor)
    }

    /// Replaces, in place, the values of layer `step + 1` by those of layer
    /// `step`: entry `i` for `i <= step` becomes the discounted expectation
    /// of the old entries `i + 1` (up) and `i` (down). Later entries are
    /// left as they were.
    pub fn roll_back(&self, values: &mut Vec<Fixed>, step: usize)
        requires
            step + 1 < old(values).len(),
        ensures
            final(values).len() == old(values).len(),
            forall|i: int|
                0 <= i <= step ==> (#[trigger] final(values)[i])@ == self.expectation(
                    old(values)[i + 1]@,
                    old(values)[i]@,
                ),
            forall|i: int|
                step < i < old(values).len() ==> #[trigger] final(values)[i] == old(values)[i],
    {
        let mut i: usize = 0;
        while i <= step
            invariant
                values.len() == old(values).len(),
                step + 1 < values.len(),
                i <= step + 1,
                forall|j: int|
                    0 <= j < i ==> (#[trigger] values[j])@ == self.expectation(
                        old(values)[j + 1]@,
                        old(values)[j]@,
                    ),
                forall|j: int| i <= j < values.len() ==> #[trigger] values[j] == old(values)[j],
            decreases step + 1 - i,
        {
            let node: Fixed = self.discounted_expectation(values[i + 1], values[i]);
            values.set(i, node);
            i = i + 1;
        }
    }
}

} // verus!
