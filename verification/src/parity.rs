//! Put-call parity on the lattice.
//!
//! A call less a put pays, at maturity, the asset less the strike. A
//! backward step is linear but for the rounding of its three products, so
//! at the root the call less the put is the value of the asset on the
//! lattice less the strike discounted once per step, up to a few raw units
//! per step.

use crate::binomial::BinomialModel;
use crate::fixed::{
    fx_add, fx_mul, fx_sub, lemma_rounded_product, rounded_product, HALF, LIMIT, SCALE,
};
use crate::lattice::LatticeFactors;
use crate::laws::discounted_value;
use crate::payoff::{payoff_value, OptionType};
use vstd::prelude::*;

verus! {

/// Value at node `i` of layer `step` of the asset itself: its price on
/// the last layer, and before it the discounted expectation of the two
/// successors.
pub open spec fn asset_value(
    model: BinomialModel,
    factors: LatticeFactors,
    step: nat,
    i: nat,
) -> int
    decreases model.steps - step,
{
    if step >= model.steps {
        factors.asset_price(model.underlying@, model.steps as nat, i)
    } else {
        factors.expectation(
            asset_value(model, factors, step + 1, i + 1),
            asset_value(model, factors, step + 1, i),
        )
    }
}

/// What the two sides of the parity differ by at node `i` of layer `step`:
/// the call, less the put, less the asset, plus the strike discounted once
/// for each layer up to maturity.
pub open spec fn parity_gap(
    call: BinomialModel,
    put: BinomialModel,
    factors: LatticeFactors,
    step: nat,
    i: nat,
) -> int {
    call.node_value(factors, step, i) - put.node_value(factors, step, i) - asset_value(
        call,
        factors,
        step,
        i,
    ) + discounted_value(factors, call.strike@, (call.steps - step) as nat)
}

/// `call` and `put` are a call and a put that agree in every other field.
pub open spec fn matched_call_and_put(call: BinomialModel, put: BinomialModel) -> bool {
    &&& call.option_type == OptionType::Call
    &&& put.option_type == OptionType::Put
    &&& call.underlying == put.underlying
    &&& call.strike == put.strike
    &&& call.maturity == put.maturity
    &&& call.volatility == put.volatility
    &&& call.risk_free_rate == put.risk_free_rate
    &&& call.steps == put.steps
}

/// No asset price on the last layer is negative, and neither one of them
/// nor the strike comes within `steps` raw units of the largest value that
/// can be represented: no value on the lattice saturates.
pub open spec fn terminal_prices_in_range(model: BinomialModel, factors: LatticeFactors) -> bool {
    &&& model.strike@ <= LIMIT - model.steps
    &&& forall|i: nat|
        i <= model.steps ==> 0 <= #[trigger] factors.asset_price(
            model.underlying@,
            model.steps as nat,
            i,
        ) <= LIMIT - model.steps
}

/// At maturity a call less a put on the same strike pays exactly the asset
/// less the strike.
pub proof fn lemma_payoff_parity(asset: int, strike: int)
    requires
        0 <= asset <= LIMIT,
        0 <= strike <= LIMIT,
    ensures
        payoff_value(OptionType::Call, asset, strike) - payoff_value(
            OptionType::Put,
            asset,
            strike,
        ) == asset - strike,
{
}

/// A backward step in which no sum or product saturates.
pub open spec fn expectation_before_saturation(
    factors: LatticeFactors,
    up_value: int,
    down_value: int,
) -> int {
    let p: int = factors.risk_neutral_probability@;
    rounded_product(
        rounded_product(p, up_value) + rounded_product(SCALE - p, down_value),
        factors.discount_factor@,
    )
}

/// The exact value of a weight times a value bounded by `m` is bounded by
/// `SCALE * m`.
proof fn lemma_weighted_bound(w: int, v: int, m: int)
    requires
        0 <= w <= SCALE,
        -m <= v <= m,
    ensures
        -(w * m) <= w * v <= w * m,
        w * m <= SCALE * m,
{
    assert(-(w * m) <= w * v <= w * m) by (nonlinear_arith)
        requires
            0 <= w,
            -m <= v <= m,
    ;
    assert(w * m <= SCALE * m) by (nonlinear_arith)
        requires
            0 <= w <= SCALE,
            0 <= m,
    ;
}

/// With convex weights and a discount of at most one, a backward step on
/// successor values bounded by `m` saturates nowhere and gives a value
/// bounded by `m + 1`.
pub proof fn lemma_expectation_in_range(
    factors: LatticeFactors,
    up_value: int,
    down_value: int,
    m: int,
)
    requires
        factors.weights_are_convex(),
        factors.discount_factor@ <= SCALE,
        -m <= up_value <= m,
        -m <= down_value <= m,
        m < LIMIT,
    ensures
        -(m + 1) <= factors.expectation(up_value, down_value) <= m + 1,
        factors.expectation(up_value, down_value) == expectation_before_saturation(
            factors,
            up_value,
            down_value,
        ),
{
    let p: int = factors.risk_neutral_probability@;
    let q: int = SCALE - p;
    let d: int = factors.discount_factor@;
    let m1: int = rounded_product(p, up_value);
    let m2: int = rounded_product(q, down_value);
    lemma_rounded_product(p, up_value);
    lemma_rounded_product(q, down_value);
    lemma_weighted_bound(p, up_value, m);
    lemma_weighted_bound(q, down_value, m);
    assert(p * m + q * m == SCALE * m) by (nonlinear_arith)
        requires
            p + q == SCALE,
    ;
    assert(SCALE * m1 <= p * m + HALF);
    assert(SCALE * m1 > -(p * m) - HALF);
    assert(-m <= m1 <= m);
    assert(-m <= m2 <= m);
    assert(-m <= m1 + m2 <= m + 1);
    assert(fx_mul(p, up_value) == m1);
    assert(fx_sub(SCALE as int, p) == q);
    assert(fx_mul(q, down_value) == m2);
    let inner: int = m1 + m2;
    assert(fx_add(m1, m2) == inner);
    lemma_rounded_product(inner, d);
    assert(-(m + 1) * SCALE <= inner * d <= (m + 1) * SCALE) by (nonlinear_arith)
        requires
            0 <= d <= SCALE,
            -(m + 1) <= inner <= m + 1,
    ;
    let out: int = rounded_product(inner, d);
    assert(-(m + 1) <= out <= m + 1);
    assert(fx_mul(inner, d) == out);
}

/// A backward step is additive up to rounding: where the successor values
/// of four contracts satisfy `first - second - third + fourth` within `e`,
/// their values after the step satisfy it within `e + 4`.
pub proof fn lemma_expectation_nearly_additive(
    factors: LatticeFactors,
    first: (int, int),
    second: (int, int),
    third: (int, int),
    fourth: (int, int),
    e: int,
    m: int,
)
    requires
        factors.weights_are_convex(),
        factors.discount_factor@ <= SCALE,
        m < LIMIT,
        -m <= first.0 <= m && -m <= first.1 <= m,
        -m <= second.0 <= m && -m <= second.1 <= m,
        -m <= third.0 <= m && -m <= third.1 <= m,
        -m <= fourth.0 <= m && -m <= fourth.1 <= m,
        0 <= e,
        -e <= first.0 - second.0 - third.0 + fourth.0 <= e,
        -e <= first.1 - second.1 - third.1 + fourth.1 <= e,
    ensures
        -(e + 4) <= factors.expectation(first.0, first.1) - factors.expectation(
            second.0,
            second.1,
        ) - factors.expectation(third.0, third.1) + factors.expectation(fourth.0, fourth.1) <= e
            + 4,
{
    let p: int = factors.risk_neutral_probability@;
    let q: int = SCALE - p;
    let d: int = factors.discount_factor@;
    lemma_expectation_in_range(factors, first.0, first.1, m);
    lemma_expectation_in_range(factors, second.0, second.1, m);
    lemma_expectation_in_range(factors, third.0, third.1, m);
    lemma_expectation_in_range(factors, fourth.0, fourth.1, m);
    lemma_rounded_product(p, first.0);
    lemma_rounded_product(q, first.1);
    lemma_rounded_product(p, second.0);
    lemma_rounded_product(q, second.1);
    lemma_rounded_product(p, third.0);
    lemma_rounded_product(q, third.1);
    lemma_rounded_product(p, fourth.0);
    lemma_rounded_product(q, fourth.1);
    let x_up: int = first.0 - second.0 - third.0 + fourth.0;
    let x_down: int = first.1 - second.1 - third.1 + fourth.1;
    assert(p * first.0 - p * second.0 - p * third.0 + p * fourth.0 == p * x_up)
        by (nonlinear_arith)
        requires
            x_up == first.0 - second.0 - third.0 + fourth.0,
    ;
    assert(q * first.1 - q * second.1 - q * third.1 + q * fourth.1 == q * x_down)
        by (nonlinear_arith)
        requires
            x_down == first.1 - second.1 - third.1 + fourth.1,
    ;
    lemma_weighted_bound(p, x_up, e);
    lemma_weighted_bound(q, x_down, e);
    assert(p * e + q * e == SCALE * e) by (nonlinear_arith)
        requires
            p + q == SCALE,
    ;
    let inner_a: int = rounded_product(p, first.0) + rounded_product(q, first.1);
    let inner_b: int = rounded_product(p, second.0) + rounded_product(q, second.1);
    let inner_c: int = rounded_product(p, third.0) + rounded_product(q, third.1);
    let inner_d: int = rounded_product(p, fourth.0) + rounded_product(q, fourth.1);
    let inner_x: int = inner_a - inner_b - inner_c + inner_d;
    assert(-(e + 3) <= inner_x <= e + 3);
    lemma_rounded_product(inner_a, d);
    lemma_rounded_product(inner_b, d);
    lemma_rounded_product(inner_c, d);
    lemma_rounded_product(inner_d, d);
    assert(inner_a * d - inner_b * d - inner_c * d + inner_d * d == inner_x * d)
        by (nonlinear_arith)
        requires
            inner_x == inner_a - inner_b - inner_c + inner_d,
    ;
    assert(-(e + 3) * SCALE <= inner_x * d <= (e + 3) * SCALE) by (nonlinear_arith)
        requires
            0 <= d <= SCALE,
            -(e + 3) <= inner_x <= e + 3,
            0 <= e,
    ;
}

/// At every node of the lattice the call less the put is the asset less
/// the discounted strike within four raw units for each layer between the
/// node and maturity, and none of the four values saturates.
pub proof fn lemma_node_parity(
    call: BinomialModel,
    put: BinomialModel,
    factors: LatticeFactors,
    step: nat,
    i: nat,
)
    requires
        matched_call_and_put(call, put),
        factors.weights_are_convex(),
        factors.discount_factor@ <= SCALE,
        terminal_prices_in_range(call, factors),
        0 < call.strike@,
        i <= step <= call.steps,
    ensures
        ({
            let layers: nat = (call.steps - step) as nat;
            let bound: int = LIMIT - call.steps + layers;
            &&& -4 * layers <= parity_gap(call, put, factors, step, i) <= 4 * layers
            &&& -bound <= call.node_value(factors, step, i) <= bound
            &&& -bound <= put.node_value(factors, step, i) <= bound
            &&& -bound <= asset_value(call, factors, step, i) <= bound
            &&& -bound <= discounted_value(factors, call.strike@, layers) <= bound
        }),
    decreases call.steps - step,
{
    if step >= call.steps {
        let asset: int = factors.asset_price(call.underlying@, call.steps as nat, i);
        assert(0 <= asset <= LIMIT - call.steps);
        assert(asset == factors.asset_price(put.underlying@, put.steps as nat, i));
        lemma_payoff_parity(asset, call.strike@);
    } else {
        lemma_node_parity(call, put, factors, step + 1, i + 1);
        lemma_node_parity(call, put, factors, step + 1, i);
        let layers: nat = (call.steps - step - 1) as nat;
        let bound: int = LIMIT - call.steps + layers;
        let strike: int = discounted_value(factors, call.strike@, layers);
        let calls: (int, int) = (
            call.node_value(factors, step + 1, i + 1),
            call.node_value(factors, step + 1, i),
        );
        let puts: (int, int) = (
            put.node_value(factors, step + 1, i + 1),
            put.node_value(factors, step + 1, i),
        );
        let assets: (int, int) = (
            asset_value(call, factors, step + 1, i + 1),
            asset_value(call, factors, step + 1, i),
        );
        lemma_expectation_in_range(factors, calls.0, calls.1, bound);
        lemma_expectation_in_range(factors, puts.0, puts.1, bound);
        lemma_expectation_in_range(factors, assets.0, assets.1, bound);
        lemma_expectation_in_range(factors, strike, strike, bound);
        lemma_expectation_nearly_additive(
            factors,
            calls,
            puts,
            assets,
            (strike, strike),
            4 * (layers as int),
            bound,
        );
        assert(discounted_value(factors, call.strike@, layers + 1) == factors.expectation(
            strike,
            strike,
        ));
    }
}

/// Put-call parity: on a lattice with convex weights and a discount of at
/// most one on which no price saturates, the price of a call less the price
/// of the matching put is the value of the asset on the lattice less the
/// strike discounted once per step, within four raw units per step.
pub proof fn lemma_put_call_parity(
    call: BinomialModel,
    put: BinomialModel,
    factors: LatticeFactors,
)
    requires
        call.is_valid(),
        put.is_valid(),
        matched_call_and_put(call, put),
        factors.weights_are_convex(),
        factors.discount_factor@ <= SCALE,
        terminal_prices_in_range(call, factors),
    ensures
        -4 * call.steps <= call.lattice_price(factors) - put.lattice_price(factors) - (
        asset_value(call, factors, 0, 0) - discounted_value(
            factors,
            call.strike@,
            call.steps as nat,
        )) <= 4 * call.steps,
{
    lemma_node_parity(call, put, factors, 0, 0);
}

} // verus!
