//! The parimutuel share of one stake.

use crate::model::payout;
use vstd::prelude::*;

verus! {

/// The credit that `stake` earns from `pot` where `winning` was staked on the
/// winning option in all: `stake * pot / winning`, rounded down, and nothing
/// where nothing was staked on the winner. What rounding leaves over is
/// credited to nobody.
///
/// A stake on the winning option is part of `winning`, so the credit never
/// exceeds the pot.
pub fn payout_share(stake: u64, pot: u64, winning: u64) -> (credit: u64)
    requires
        stake <= winning,
    ensures
        credit == payout(stake as nat, pot as nat, winning as nat),
        credit <= pot,
{
    if winning == 0 {
        return 0;
    }
    assert(stake * pot <= winning * pot <= u64::MAX * u64::MAX) by (nonlinear_arith)
        requires
            stake <= winning <= u64::MAX,
            pot <= u64::MAX,
    ;
    let product: u128 = (stake as u128) * (pot as u128);
    let share: u128 = product / (winning as u128);
    proof {
        let x = (stake * pot) as int;
        let y = (winning * pot) as int;
        let d = winning as int;
        vstd::arithmetic::div_mod::lemma_div_is_ordered(x, y, d);
        assert(y == pot * d) by (nonlinear_arith)
            requires
                y == winning * pot,
                d == winning,
        ;
        vstd::arithmetic::div_mod::lemma_div_multiples_vanish(pot as int, d);
        assert(share == x / d);
        assert(y / d == pot);
    }
    share as u64
}

} // verus!
