//! The non-numeric rules of a node's binary prediction market: resolution
//! by the oracle is final, and which side a resolved market pays.

use vstd::prelude::*;

verus! {

/// The market's state after the oracle reports `yes_wins`: an open market
/// takes the verdict, a resolved one keeps its first verdict.
pub open spec fn resolved_after(resolved: Option<bool>, yes_wins: bool) -> Option<bool> {
    match resolved {
        Some(v) => Some(v),
        None => Some(yes_wins),
    }
}

pub fn resolve_outcome(resolved: Option<bool>, yes_wins: bool) -> (r: Option<bool>)
    ensures
        r == resolved_after(resolved, yes_wins),
{
    match resolved {
        Some(v) => Some(v),
        None => Some(yes_wins),
    }
}

/// Which shares a market pays out on redemption.
#[derive(Debug, Clone, Copy, PartialEq, Eq, Structural)]
pub enum Payout {
    /// Each YES share pays one coin.
    YesShares,
    /// Each NO share pays one coin.
    NoShares,
    /// Not resolved yet: nothing is paid.
    Nothing,
}

pub open spec fn payout_spec(resolved: Option<bool>) -> Payout {
    match resolved {
        Some(true) => Payout::YesShares,
        Some(false) => Payout::NoShares,
        None => Payout::Nothing,
    }
}

pub fn payout_for(resolved: Option<bool>) -> (p: Payout)
    ensures
        p == payout_spec(resolved),
{
    match resolved {
        Some(true) => Payout::YesShares,
        Some(false) => Payout::NoShares,
        None => Payout::Nothing,
    }
}

/// A market trades only while it is open.
pub fn trading_open(resolved: Option<bool>) -> (b: bool)
    ensures
        b == (resolved is None),
{
    resolved.is_none()
}

/// Resolution is irreversible: once a market is resolved, any later oracle
/// report leaves the verdict as it was, and the payout side with it.
pub proof fn resolution_is_final(resolved: Option<bool>, first: bool, second: bool)
    ensures
        ({
            let once = resolved_after(resolved, first);
            let twice = resolved_after(once, second);
            &&& once is Some
            &&& twice == once
            &&& payout_spec(twice) == payout_spec(once)
            &&& (resolved is Some ==> once == resolved)
        }),
{
}

/// A resolved market pays the side the oracle ruled for: YES shares when the
/// node was found on the golden path, NO shares when it was not; an open
/// market pays nothing. Resolving an open market with a verdict pays that
/// verdict's side.
pub proof fn paid_side_is_the_verdict(v: bool)
    ensures
        v ==> payout_spec(Some(v)) == Payout::YesShares,
        !v ==> payout_spec(Some(v)) == Payout::NoShares,
        payout_spec(Some(v)) != Payout::Nothing,
        payout_spec(None) == Payout::Nothing,
        payout_spec(resolved_after(None, v)) == (if v { Payout::YesShares } else { Payout::NoShares }),
{
}

} // verus!
