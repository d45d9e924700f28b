//! Properties of the lattice value that hold for every model.

use crate::binomial::BinomialModel;
use crate::fixed::{
    fx_add, fx_mul, fx_pow, lemma_fx_mul_monotone, lemma_fx_mul_monotone_right,
    lemma_fx_mul_nonnegative, lemma_fx_pow_nonnegative, lemma_fx_pow_of_one, HALF, SCALE,
};
use crate::lattice::LatticeFactors;
use crate::payoff::{payoff_value, OptionType};
use vstd::arithmetic::div_mod::lemma_fundamental_div_mod_converse;
use vstd::prelude::*;

verus! {

/// With convex weights a backward step maps non-negative successor values
/// to a non-negative value.
pub proof fn lemma_expectation_nonnegative(factors: LatticeFactors, up_value: int, down_value: int)
    requires
        factors.weights_are_convex(),
        0 <= up_value,
        0 <= down_value,
    ensures
        0 <= factors.expectation(up_value, down_value),
{
    let p: int = factors.risk_neutral_probability@;
    lemma_fx_mul_nonnegative(p, up_value);
    lemma_fx_mul_nonnegative(SCALE - p, down_value);
    lemma_fx_mul_nonnegative(
        fx_mul(p, up_value) + fx_mul(SCALE - p, down_value),
        factors.discount_factor@,
    );
}

/// With convex weights a backward step keeps the order of the successor
/// values: larger successors never give a smaller node.
pub proof fn lemma_expectation_monotone(
    factors: LatticeFactors,
    up_low: int,
    down_low: int,
    up_high: int,
    down_high: int,
)
    requires
        factors.weights_are_convex(),
        up_low <= up_high,
        down_low <= down_high,
    ensures
        factors.expectation(up_low, down_low) <= factors.expectation(up_high, down_high),
{
    let p: int = factors.risk_neutral_probability@;
    lemma_fx_mul_monotone_right(p, up_low, up_high);
    lemma_fx_mul_monotone_right(SCALE - p, down_low, down_high);
    let low: int = fx_add(fx_mul(p, up_low), fx_mul(SCALE - p, down_low));
    let high: int = fx_add(fx_mul(p, up_high), fx_mul(SCALE - p, down_high));
    lemma_fx_mul_monotone(low, high, factors.discount_factor@);
}

/// The value at every node is non-negative when the weights are convex:
/// payoffs are non-negative and a backward step preserves that.
pub proof fn lemma_node_value_nonnegative(
    model: BinomialModel,
    factors: LatticeFactors,
    step: nat,
    i: nat,
)
    requires
        factors.weights_are_convex(),
    ensures
        0 <= model.node_value(factors, step, i),
    decreases model.steps - step,
{
    if step < model.steps {
        lemma_node_value_nonnegative(model, factors, step + 1, i + 1);
        lemma_node_value_nonnegative(model, factors, step + 1, i);
        lemma_expectation_nonnegative(
            factors,
            model.node_value(factors, step + 1, i + 1),
            model.node_value(factors, step + 1, i),
        );
    }
}

/// The price of an option is never negative when the weights are convex.
pub proof fn lemma_price_nonnegative(model: BinomialModel, factors: LatticeFactors)
    requires
        model.is_valid(),
        factors.weights_are_convex(),
    ensures
        0 <= model.lattice_price(factors),
{
    lemma_node_value_nonnegative(model, factors, 0, 0);
}

/// When neither move is negative, the asset price at a node does not
/// decrease as the spot price grows.
pub proof fn lemma_asset_price_monotone(
    factors: LatticeFactors,
    low: int,
    high: int,
    steps: nat,
    i: nat,
)
    requires
        factors.moves_are_nonnegative(),
        low <= high,
    ensures
        factors.asset_price(low, steps, i) <= factors.asset_price(high, steps, i),
{
    let downs: nat = if i <= steps {
        (steps - i) as nat
    } else {
        0
    };
    let up_power: int = fx_pow(factors.up_factor@, i);
    let down_power: int = fx_pow(factors.down_factor@, downs);
    lemma_fx_pow_nonnegative(factors.up_factor@, i);
    lemma_fx_pow_nonnegative(factors.down_factor@, downs);
    lemma_fx_mul_monotone(low, high, up_power);
    lemma_fx_mul_monotone(fx_mul(low, up_power), fx_mul(high, up_power), down_power);
}

/// A call pays no less, and a put no more, when the asset ends higher.
pub proof fn lemma_payoff_monotone(low: int, high: int, strike: int)
    requires
        low <= high,
    ensures
        payoff_value(OptionType::Call, low, strike) <= payoff_value(
            OptionType::Call,
            high,
            strike,
        ),
        payoff_value(OptionType::Put, low, strike) >= payoff_value(OptionType::Put, high, strike),
{
}

/// The two models are the same contract on the same number of steps, seen
/// from two spot prices.
pub open spec fn differ_in_underlying_only(a: BinomialModel, b: BinomialModel) -> bool {
    &&& a.strike == b.strike
    &&& a.maturity == b.maturity
    &&& a.volatility == b.volatility
    &&& a.risk_free_rate == b.risk_free_rate
    &&& a.steps == b.steps
    &&& a.option_type == b.option_type
}

/// At every node, a call is worth no less and a put no more from the higher
/// of two spot prices.
pub proof fn lemma_node_value_monotone_in_underlying(
    lower: BinomialModel,
    higher: BinomialModel,
    factors: LatticeFactors,
    step: nat,
    i: nat,
)
    requires
        differ_in_underlying_only(lower, higher),
        lower.underlying@ <= higher.underlying@,
        factors.weights_are_convex(),
        factors.moves_are_nonnegative(),
    ensures
        lower.option_type == OptionType::Call ==> lower.node_value(factors, step, i)
            <= higher.node_value(factors, step, i),
        lower.option_type == OptionType::Put ==> lower.node_value(factors, step, i)
            >= higher.node_value(factors, step, i),
    decreases lower.steps - step,
{
    if step >= lower.steps {
        lemma_asset_price_monotone(
            factors,
            lower.underlying@,
            higher.underlying@,
            lower.steps as nat,
            i,
        );
        lemma_payoff_monotone(
            factors.asset_price(lower.underlying@, lower.steps as nat, i),
            factors.asset_price(higher.underlying@, lower.steps as nat, i),
            lower.strike@,
        );
    } else {
        lemma_node_value_monotone_in_underlying(lower, higher, factors, step + 1, i + 1);
        lemma_node_value_monotone_in_underlying(lower, higher, factors, step + 1, i);
        let lower_up: int = lower.node_value(factors, step + 1, i + 1);
        let lower_down: int = lower.node_value(factors, step + 1, i);
        let higher_up: int = higher.node_value(factors, step + 1, i + 1);
        let higher_down: int = higher.node_value(factors, step + 1, i);
        match lower.option_type {
            OptionType::Call => {
                lemma_expectation_monotone(factors, lower_up, lower_down, higher_up, higher_down);
            },
            OptionType::Put => {
                lemma_expectation_monotone(factors, higher_up, higher_down, lower_up, lower_down);
            },
        }
    }
}

/// The price of a call does not decrease, and the price of a put does not
/// increase, as the spot price grows and everything else stays fixed.
pub proof fn lemma_price_monotone_in_underlying(
    lower: BinomialModel,
    higher: BinomialModel,
    factors: LatticeFactors,
)
    requires
        lower.is_valid(),
        higher.is_valid(),
        differ_in_underlying_only(lower, higher),
        lower.underlying@ <= higher.underlying@,
        factors.weights_are_convex(),
        factors.moves_are_nonnegative(),
    ensures
        lower.option_type == OptionType::Call ==> lower.lattice_price(factors)
            <= higher.lattice_price(factors),
        lower.option_type == OptionType::Put ==> lower.lattice_price(factors)
            >= higher.lattice_price(factors),
{
    lemma_node_value_monotone_in_underlying(lower, higher, factors, 0, 0);
}

/// `value` after `layers` backward steps of which both successors are
/// worth the same.
pub open spec fn discounted_value(factors: LatticeFactors, value: int, layers: nat) -> int
    decreases layers,
{
    if layers == 0 {
        value
    } else {
        let next: int = discounted_value(factors, value, (layers - 1) as nat);
        factors.expectation(next, next)
    }
}

/// On a lattice whose two moves are both one, as without volatility, the
/// asset stays at the spot price on every node of the last layer, so that
/// every such node pays what the option would pay at once.
pub proof fn lemma_flat_lattice_terminal_value(
    model: BinomialModel,
    factors: LatticeFactors,
    i: nat,
)
    requires
        factors.up_factor@ == SCALE,
        factors.down_factor@ == SCALE,
    ensures
        factors.asset_price(model.underlying@, model.steps as nat, i) == model.underlying@,
        model.terminal_value(factors, i) == payoff_value(
            model.option_type,
            model.underlying@,
            model.strike@,
        ),
{
    let downs: nat = if i <= model.steps {
        (model.steps - i) as nat
    } else {
        0
    };
    lemma_fx_pow_of_one(i);
    lemma_fx_pow_of_one(downs);
    model.underlying.lemma_view_in_range();
    let s: int = model.underlying@;
    assert((s * SCALE + HALF) / (SCALE as int) == s) by {
        lemma_fundamental_div_mod_converse(s * SCALE + HALF, SCALE as int, s, HALF as int);
    }
}

/// On a lattice whose two moves are both one, every node of a layer is
/// worth the same: the immediate payoff, discounted once for each layer up
/// to maturity.
pub proof fn lemma_flat_lattice_node_value(
    model: BinomialModel,
    factors: LatticeFactors,
    step: nat,
    i: nat,
)
    requires
        factors.up_factor@ == SCALE,
        factors.down_factor@ == SCALE,
        step <= model.steps,
    ensures
        model.node_value(factors, step, i) == discounted_value(
            factors,
            payoff_value(model.option_type, model.underlying@, model.strike@),
            (model.steps - step) as nat,
        ),
    decreases model.steps - step,
{
    if step >= model.steps {
        lemma_flat_lattice_terminal_value(model, factors, i);
    } else {
        lemma_flat_lattice_node_value(model, factors, step + 1, i + 1);
        lemma_flat_lattice_node_value(model, factors, step + 1, i);
    }
}

/// Without volatility the price is the immediate payoff, discounted once
/// for each step.
pub proof fn lemma_flat_lattice_price(model: BinomialModel, factors: LatticeFactors)
    requires
        model.is_valid(),
        factors.up_factor@ == SCALE,
        factors.down_factor@ == SCALE,
    ensures
        model.lattice_price(factors) == discounted_value(
            factors,
            payoff_value(model.option_type, model.underlying@, model.strike@),
            model.steps as nat,
        ),
{
    lemma_flat_lattice_node_value(model, factors, 0, 0);
}

} // verus!
