//! The binomial model: a contract, its validity, and its value on a lattice.

use crate::fixed::{fx_div, fx_mul, fx_neg, fx_pow, fx_sqrt, power_table, Fixed, SCALE};
use crate::lattice::LatticeFactors;
use crate::laws::lemma_node_value_nonnegative;
use crate::payoff::{payoff, payoff_value, OptionType};
use vstd::arithmetic::div_mod::lemma_div_pos_is_pos;
use vstd::prelude::*;

verus! {

/// Why a valuation was refused.
#[derive(Clone, Copy, Debug, PartialEq, Eq, Structural)]
pub enum PricingError {
    /// A field of the model is outside the range in which it has a meaning.
    InvalidParameter,
}

/// A European option and the number of time steps of the lattice on which
/// it is valued.
#[derive(Clone, Copy, Debug, PartialEq, Eq, Structural)]
pub struct BinomialModel {
    /// Spot price of the asset.
    pub underlying: Fixed,
    /// Strike price.
    pub strike: Fixed,
    /// Time to maturity, in years.
    pub maturity: Fixed,
    /// Annualised volatility.
    pub volatility: Fixed,
    /// Annualised, continuously compounded rate; may be negative.
    pub risk_free_rate: Fixed,
    /// Number of time steps.
    pub steps: u32,
    /// Call or put.
    pub option_type: OptionType,
}

/// The exponents of the three scalars that depend on the length of a time
/// step. The lattice is built from their exponentials.
#[derive(Clone, Copy, Debug, PartialEq, Eq, Structural)]
pub struct StepExponents {
    /// `volatility * sqrt(dt)`, the exponent of the up factor.
    pub up: Fixed,
    /// `risk_free_rate * dt`, the exponent of the growth over one step.
    pub growth: Fixed,
    /// `-risk_free_rate * dt`, the exponent of the discount over one step.
    pub discount: Fixed,
}

impl BinomialModel {
    /// At least one step, positive maturity, spot and strike, and a
    /// volatility that is not negative.
    pub open spec fn is_valid(self) -> bool {
        &&& self.steps >= 1
        &&& self.maturity@ > 0
        &&& self.underlying@ > 0
        &&& self.strike@ > 0
        &&& self.volatility@ >= 0
    }

    /// Length of one time step: `maturity / steps`.
    pub open spec fn time_step(self) -> int {
        fx_div(self.maturity@, self.steps * SCALE)
    }

    /// `volatility * sqrt(dt)`.
    pub open spec fn up_exponent(self) -> int {
        fx_mul(self.volatility@, fx_sqrt(self.time_step()))
    }

    /// `risk_free_rate * dt`.
    pub open spec fn growth_exponent(self) -> int {
        fx_mul(self.risk_free_rate@, self.time_step())
    }

    /// `-risk_free_rate * dt`.
    pub open spec fn discount_exponent(self) -> int {
        fx_mul(fx_neg(self.risk_free_rate@), self.time_step())
    }

    /// Payoff at the node of the last layer that `i` up moves reach.
    pub open spec fn terminal_value(self, factors: LatticeFactors, i: nat) -> int {
        payoff_value(
            self.option_type,
            factors.asset_price(self.underlying@, self.steps as nat, i),
            self.strike@,
        )
    }

    /// Value of the option at node `i` of layer `step`: the payoff on the
    /// last layer, and before it the discounted expectation of the two
    /// successors, node `i + 1` (up) and node `i` (down) of the next layer.
    pub open spec fn node_value(self, factors: LatticeFactors, step: nat, i: nat) -> int
        decreases self.steps - step,
    {
        if step >= self.steps {
            self.terminal_value(factors, i)
        } else {
            factors.expectation(
                self.node_value(factors, step + 1, i + 1),
                self.node_value(factors, step + 1, i),
            )
        }
    }

    /// Present value of the option: the value at the root of the lattice.
    pub open spec fn lattice_price(self, factors: LatticeFactors) -> int {
        self.node_value(factors, 0, 0)
    }

    /// Accepts the model exactly when it is valid.
    pub fn validate(&self) -> (r: Result<(), PricingError>)
        ensures
            r is Ok <==> self.is_valid(),
            r is Err ==> r == Err::<(), PricingError>(PricingError::InvalidParameter),
    {
        if self.steps >= 1 && self.maturity.raw() > 0 && self.underlying.raw() > 0
            && self.strike.raw() > 0 && self.volatility.raw() >= 0 {
            Ok(())
        } else {
            Err(PricingError::InvalidParameter)
        }
    }

    /// The exponents of the up factor, of the growth and of the discount
    /// over one time step of a valid model.
    pub fn step_exponents(&self) -> (r: Result<StepExponents, PricingError>)
        ensures
            self.is_valid() ==> r is Ok && r->Ok_0.up@ == self.up_exponent() && r->Ok_0.growth@
                == self.growth_exponent() && r->Ok_0.discount@ == self.discount_exponent(),
            !self.is_valid() ==> r == Err::<StepExponents, PricingError>(
                PricingError::InvalidParameter,
            ),
    {
        match self.validate() {
            Err(e) => {
                return Err(e);
            },
            Ok(_) => {},
        }
        let dt: Fixed = self.maturity.saturating_div(Fixed::from_count(self.steps));
        assert(dt@ >= 0) by {
            let count: int = self.steps * SCALE;
            assert(0 <= 2 * self.maturity@ * SCALE + count) by (nonlinear_arith)
                requires
                    0 <= self.maturity@,
                    0 <= count,
                    SCALE == 1_000_000_000_000_000_000,
            ;
            lemma_div_pos_is_pos(2 * self.maturity@ * SCALE + count, 2 * count);
        }
        Ok(
            StepExponents {
                up: self.volatility.saturating_mul(dt.sqrt()),
                growth: self.risk_free_rate.saturating_mul(dt),
                discount: self.risk_free_rate.saturating_neg().saturating_mul(dt),
            },
        )
    }

    /// The payoffs on the last layer, one for each number of up moves from
    /// `0` to `steps`.
    pub fn terminal_values(&self, factors: &LatticeFactors) -> (values: Vec<Fixed>)
        ensures
            values.len() == self.steps + 1,
            forall|i: int|
                0 <= i <= self.steps ==> (#[trigger] values[i])@ == self.terminal_value(
                    *factors,
                    i as nat,
                ),
    {
        let n: usize = self.steps as usize;
        let ups: Vec<Fixed> = power_table(factors.up_factor, n);
        let downs: Vec<Fixed> = power_table(factors.down_factor, n);
        let mut values: Vec<Fixed> = Vec::new();
        while values.len() <= n
            invariant
                n == self.steps,
                values.len() <= n + 1,
                ups.len() == n + 1,
                downs.len() == n + 1,
                forall|j: int|
                    0 <= j <= n ==> (#[trigger] ups[j])@ == fx_pow(
                        factors.up_factor@,
                        j as nat,
                    ),
                forall|j: int|
                    0 <= j <= n ==> (#[trigger] downs[j])@ == fx_pow(
                        factors.down_factor@,
                        j as nat,
                    ),
                forall|j: int|
                    0 <= j < values.len() ==> (#[trigger] values[j])@ == self.terminal_value(
                        *factors,
                        j as nat,
                    ),
            decreases n + 1 - values.len(),
        {
            let i: usize = values.len();
            let asset: Fixed = self.underlying.saturating_mul(ups[i]).saturating_mul(downs[n - i]);
            values.push(payoff(self.option_type, asset, self.strike));
        }
        values
    }

    /// Values the option on the lattice that `factors` describes.
    ///
    /// An invalid model is refused before anything is computed. For a valid
    /// one the result is the value at the root, obtained from the payoffs on
    /// the last layer by one backward step per layer.
    pub fn price(&self, factors: &LatticeFactors) -> (r: Result<Fixed, PricingError>)
        ensures
            self.is_valid() ==> r is Ok && r->Ok_0@ == self.lattice_price(*factors),
            self.is_valid() && factors.weights_are_convex() ==> r is Ok && r->Ok_0@ >= 0,
            !self.is_valid() ==> r == Err::<Fixed, PricingError>(PricingError::InvalidParameter),
    {
        match self.validate() {
            Err(e) => {
                return Err(e);
            },
            Ok(_) => {},
        }
        let n: usize = self.steps as usize;
        let mut values: Vec<Fixed> = self.terminal_values(factors);
        let mut layer: usize = n;
        while layer > 0
            invariant
                n == self.steps,
                layer <= n,
                values.len() == n + 1,
                forall|j: int|
                    0 <= j <= layer ==> (#[trigger] values[j])@ == self.node_value(
                        *factors,
                        layer as nat,
                        j as nat,
                    ),
            decreases layer,
        {
            layer = layer - 1;
            let ghost above: Seq<Fixed> = values@;
            factors.roll_back(&mut values, layer);
            assert forall|j: int| 0 <= j <= layer implies (#[trigger] values[j])@
                == self.node_value(*factors, layer as nat, j as nat) by {
                assert(above[j + 1]@ == self.node_value(
                    *factors,
                    (layer + 1) as nat,
                    (j + 1) as nat,
                ));
                assert(above[j]@ == self.node_value(*factors, (layer + 1) as nat, j as nat));
            }
        }
        proof {
            if factors.weights_are_convex() {
                lemma_node_value_nonnegative(*self, *factors, 0, 0);
            }
        }
        Ok(values[0])
    }
}

} // verus!
