//! The two vanilla payoffs at maturity.

use crate::fixed::{fx_sub, positive_part, Fixed};
use vstd::prelude::*;

verus! {

/// Which side of the strike pays.
#[derive(Clone, Copy, Debug, PartialEq, Eq, Structural)]
pub enum OptionType {
    Call,
    Put,
}

/// What the option pays at maturity when the asset stands at `asset`:
/// `max(0, asset - strike)` for a call and `max(0, strike - asset)` for a put,
/// on raw values.
pub open spec fn payoff_value(kind: OptionType, asset: int, strike: int) -> int {
    match kind {
        OptionType::Call => positive_part(fx_sub(asset, strike)),
        OptionType::Put => positive_part(fx_sub(strike, asset)),
    }
}

/// The payoff at maturity of an option of the given kind.
pub fn payoff(kind: OptionType, asset: Fixed, strike: Fixed) -> (r: Fixed)
    ensures
        r@ == payoff_value(kind, asset@, strike@),
{
    let intrinsic: Fixed = match kind {
        OptionType::Call => asset.saturating_sub(strike),
        OptionType::Put => strike.saturating_sub(asset),
    };
    intrinsic.positive_part()
}

} // verus!
