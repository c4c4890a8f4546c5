//! Coin selection: which proofs pay for an amount.
//!
//! The proofs are taken in the order given, in one pass, until their running
//! total reaches the amount. A caller that wants a small overshoot sorts its
//! proofs before it asks.

use crate::amount::Amount;
use crate::error::Error;
use crate::types::{proof_amounts, Proof, SendProofs};
use crate::views::{lemma_sum_push, lemma_sum_take_le, lemma_sum_take_next, sum};
use vstd::prelude::*;

verus! {

/// The first count from `k` on, up to the number of values, for which the
/// running total of that many values reaches `amount`; the number of values
/// where none does.
pub open spec fn reach_from(values: Seq<nat>, amount: nat, k: int) -> int
    decreases values.len() - k,
{
    if k >= values.len() || sum(values.take(k)) >= amount {
        k
    } else {
        reach_from(values, amount, k + 1)
    }
}

/// The number of values, counted from the first, that a selection for
/// `amount` looks at: the least whose running total reaches `amount`, or all
/// of them where the values do not add up to it.
pub open spec fn reach(values: Seq<nat>, amount: nat) -> int {
    reach_from(values, amount, 0)
}

/// The running total at which a selection for `amount` stops.
pub open spec fn selected_total(values: Seq<nat>, amount: nat) -> nat {
    sum(values.take(reach(values, amount)))
}

/// `reach_from` gives a count between `k` and the number of values, and no
/// running total from `k` up to it reaches the amount before it.
pub proof fn lemma_reach_from_least(values: Seq<nat>, amount: nat, k: int)
    requires
        0 <= k <= values.len(),
    ensures
        k <= reach_from(values, amount, k) <= values.len(),
        forall|j: int|
            k <= j < reach_from(values, amount, k) ==> sum(#[trigger] values.take(j)) < amount,
        reach_from(values, amount, k) < values.len() ==> sum(
            values.take(reach_from(values, amount, k)),
        ) >= amount,
    decreases values.len() - k,
{
    if k >= values.len() || sum(values.take(k)) >= amount {
    } else {
        lemma_reach_from_least(values, amount, k + 1);
    }
}

/// A selection stops at the least count whose running total reaches the
/// amount, and looks at every value exactly where the values before the last
/// do not add up to it.
pub proof fn lemma_reach_least(values: Seq<nat>, amount: nat)
    ensures
        0 <= reach(values, amount) <= values.len(),
        forall|j: int|
            0 <= j < reach(values, amount) ==> sum(#[trigger] values.take(j)) < amount,
        selected_total(values, amount) >= amount <==> sum(values) >= amount,
{
    lemma_reach_from_least(values, amount, 0);
    let k = reach(values, amount);
    lemma_sum_take_le(values, k);
    if k == values.len() {
        assert(values.take(k) =~= values);
    }
}

/// The amounts of the first `k` proofs are the first `k` amounts.
pub proof fn lemma_proof_amounts_take(proofs: Seq<Proof>, k: int)
    requires
        0 <= k <= proofs.len(),
    ensures
        proof_amounts(proofs.take(k)) == proof_amounts(proofs).take(k),
{
    assert(proof_amounts(proofs.take(k)) =~= proof_amounts(proofs).take(k));
}

/// The sum of the amounts of `proofs`, or `None` where it does not fit into
/// an amount.
pub fn total_amount(proofs: &Vec<Proof>) -> (res: Option<Amount>)
    ensures
        match res {
            Some(total) => total@ == sum(proof_amounts(proofs@)),
            None => sum(proof_amounts(proofs@)) > u64::MAX,
        },
{
    let ghost values = proof_amounts(proofs@);
    let mut total = Amount::zero();
    let mut i: usize = 0;
    assert(values.take(0) =~= Seq::empty());
    while i < proofs.len()
        invariant
            i <= proofs.len(),
            values == proof_amounts(proofs@),
            total@ == sum(values.take(i as int)),
        decreases proofs.len() - i,
    {
        proof {
            lemma_sum_take_next(values, i as int);
            lemma_sum_take_le(values, i + 1);
        }
        total = match total.checked_add(proofs[i].amount) {
            Some(total) => total,
            None => {
                return None;
            },
        };
        i += 1;
    }
    assert(values.take(i as int) =~= values);
    Some(total)
}

/// Parts `proofs` into those that pay for `amount` and a remainder.
///
/// The proofs are added up in the order given until their running total
/// reaches `amount`. Where the total then equals `amount`, the proofs added up
/// are the ones to send, and nothing remains. Where it exceeds `amount`, the
/// proof that was added last is the remainder, and the ones before it are the
/// ones to send: their owner has to split before it can pay. Proofs behind the
/// point where the selection stops are in neither part.
///
/// Fails with `InsufficientFunds` where all the proofs together do not reach
/// `amount`, and with `AmountError` where the total at which the selection
/// stops does not fit into an amount.
pub fn select_proofs(amount: Amount, proofs: Vec<Proof>) -> (res: Result<SendProofs, Error>)
    ensures
        ({
            let values = proof_amounts(proofs@);
            let k = reach(values, amount@);
            let total = selected_total(values, amount@);
            match res {
                Ok(selection) => {
                    &&& amount@ <= total <= u64::MAX
                    &&& sum(proof_amounts(selection.send_proofs@)) + sum(
                        proof_amounts(selection.change_proofs@),
                    ) == total
                    &&& total == amount@ ==> {
                        &&& selection.send_proofs@ == proofs@.take(k)
                        &&& selection.change_proofs@ == Seq::<Proof>::empty()
                    }
                    &&& total > amount@ ==> {
                        &&& k >= 1
                        &&& selection.send_proofs@ == proofs@.take(k - 1)
                        &&& selection.change_proofs@ == seq![proofs@[k - 1]]
                    }
                },
                Err(e) => {
                    &&& e == Error::InsufficientFunds || e == Error::AmountError
                    &&& e == Error::InsufficientFunds <==> total < amount@
                    &&& e == Error::AmountError <==> total > u64::MAX
                },
            }
        }),
{
    let ghost values = proof_amounts(proofs@);
    let mut send_proofs = proofs;
    let mut total = Amount::zero();
    let mut i: usize = 0;
    proof {
        assert(values.take(0) =~= Seq::empty());
        lemma_reach_least(values, amount@);
    }
    while i < send_proofs.len() && total.to_sat() < amount.to_sat()
        invariant
            send_proofs@ == proofs@,
            values == proof_amounts(proofs@),
            i <= send_proofs.len(),
            total@ == sum(values.take(i as int)),
            total@ <= amount@,
            reach(values, amount@) == reach_from(values, amount@, i as int),
        decreases send_proofs.len() - i,
    {
        proof {
            lemma_sum_take_next(values, i as int);
            lemma_reach_from_least(values, amount@, i + 1);
        }
        let next = total.checked_add(send_proofs[i].amount);
        i += 1;
        match next {
            None => {
                return Err(Error::AmountError);
            },
            Some(next) => {
                if next.to_sat() > amount.to_sat() {
                    let mut change_proofs = send_proofs.split_off(i - 1);
                    change_proofs.truncate(1);
                    assert(send_proofs@ =~= proofs@.take(i - 1));
                    assert(change_proofs@ =~= seq![proofs@[i - 1]]);
                    proof {
                        lemma_proof_amounts_take(proofs@, i - 1);
                        assert(proof_amounts(change_proofs@) =~= Seq::<nat>::empty().push(
                            values[i - 1],
                        ));
                        lemma_sum_push(Seq::<nat>::empty(), values[i - 1]);
                    }
                    return Ok(SendProofs { change_proofs, send_proofs });
                }
                total = next;
            },
        }
    }
    if total.to_sat() < amount.to_sat() {
        return Err(Error::InsufficientFunds);
    }
    send_proofs.truncate(i);
    assert(send_proofs@ =~= proofs@.take(i as int));
    proof {
        lemma_proof_amounts_take(proofs@, i as int);
        assert(proof_amounts(Seq::<Proof>::empty()) =~= Seq::<nat>::empty());
    }
    Ok(SendProofs { change_proofs: Vec::new(), send_proofs })
}

} // verus!
