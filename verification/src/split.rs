//! Splits: exchanging proofs at the mint for new ones of the same value.
//!
//! A split has two halves. The wallet first prepares blinded outputs, some to
//! keep and some to send, and asks the mint to sign them in exchange for the
//! proofs it gives up. When the mint has answered, the wallet unblinds the
//! signatures into proofs.

use crate::amount::{denominations, lemma_binary_parts_sum, Amount};
use crate::blinded_messages::{BlindedMessages, BlindedMessagesView};
use crate::dhke::{lemma_reconstructed_proofs, reconstructed, reconstructible};
use crate::error::Error;
use crate::types::{
    message_amounts, promise_amounts, proof_amounts, proof_secrets, proof_view_amounts,
    secrets_of, Proof, SplitRequest, SplitResponse,
};
use crate::views::{lemma_sum_concat, sum, views};
use vstd::prelude::*;
use vstd::seq_lib::lemma_no_dup_in_concat;

verus! {

/// A split request together with what the wallet keeps back to unblind the
/// mint's answer.
#[derive(Debug, PartialEq, Eq)]
pub struct SplitPayload {
    pub keep_blinded_messages: BlindedMessages,
    pub send_blinded_messages: BlindedMessages,
    pub split_payload: SplitRequest,
}

/// Whether `outputs` are freshly made outputs for the denominations of
/// `amount`.
pub open spec fn outputs_for(outputs: BlindedMessagesView, amount: nat) -> bool {
    &&& outputs.wf()
    &&& outputs.paired()
    &&& outputs.encoded()
    &&& outputs.generated()
    &&& outputs.distinct()
    &&& outputs.amounts == denominations(amount)
}

impl SplitPayload {
    /// Whether the request asks the mint to sign the outputs to keep and then
    /// the outputs to send, in exchange for `proofs`, with `amount` named as
    /// the total that is split anew.
    pub open spec fn requests(self, amount: nat, proofs: Seq<Proof>) -> bool {
        &&& self.split_payload.amount@ == amount
        &&& self.split_payload.proofs@ == proofs
        &&& views(self.split_payload.outputs@) == self.keep_blinded_messages@.blinded_messages
            + self.send_blinded_messages@.blinded_messages
    }

    /// Whether no secret and no blinding factor is used for two of the
    /// outputs, be they to keep or to send, and no secret of an output is one
    /// of `used`.
    pub open spec fn fresh(self, used: Seq<Seq<char>>) -> bool {
        let keep = self.keep_blinded_messages@;
        let send = self.send_blinded_messages@;
        &&& (keep.secrets + send.secrets).no_duplicates()
        &&& (keep.rs + send.rs).no_duplicates()
        &&& (keep.secrets + send.secrets).disjoint(used)
    }

    /// Whether this is a split of `proofs` into fresh outputs worth
    /// `keep_amount` to keep and fresh outputs worth `send_amount` to send:
    /// the request names the two amounts together as its total, and no output
    /// carries a secret of `proofs`.
    pub open spec fn splits(self, keep_amount: nat, send_amount: nat, proofs: Seq<Proof>) -> bool {
        &&& self.requests(keep_amount + send_amount, proofs)
        &&& outputs_for(self.keep_blinded_messages@, keep_amount)
        &&& outputs_for(self.send_blinded_messages@, send_amount)
        &&& self.fresh(proof_secrets(proofs))
    }

    /// Puts a split request together from the outputs to keep, the outputs to
    /// send, the total `amount` that is split and the proofs to give up.
    ///
    /// Fails with `ReusedSecret` where the outputs to keep and those to send
    /// have a secret or a blinding factor in common, or an output carries the
    /// secret of one of `proofs`.
    pub fn new(
        keep_blinded_messages: BlindedMessages,
        send_blinded_messages: BlindedMessages,
        amount: Amount,
        proofs: Vec<Proof>,
    ) -> (res: Result<SplitPayload, Error>)
        ensures
            ({
                let keep = keep_blinded_messages@;
                let send = send_blinded_messages@;
                let used = proof_secrets(proofs@);
                let unused = keep.apart_from(send) && keep.avoids(used) && send.avoids(used);
                match res {
                    Ok(payload) => {
                        &&& unused
                        &&& payload.keep_blinded_messages == keep_blinded_messages
                        &&& payload.send_blinded_messages == send_blinded_messages
                        &&& payload.requests(amount@, proofs@)
                        &&& keep.distinct() && send.distinct() ==> payload.fresh(used)
                    },
                    Err(e) => e == Error::ReusedSecret && !unused,
                }
            }),
    {
        let used = secrets_of(&proofs);
        if !keep_blinded_messages.apart_from(&send_blinded_messages)
            || !keep_blinded_messages.avoids(&used) || !send_blinded_messages.avoids(&used) {
            return Err(Error::ReusedSecret);
        }
        let mut outputs = keep_blinded_messages.blinded_messages();
        let mut send_outputs = send_blinded_messages.blinded_messages();
        outputs.append(&mut send_outputs);
        assert(views(outputs@) =~= keep_blinded_messages@.blinded_messages
            + send_blinded_messages@.blinded_messages);
        let payload = SplitPayload {
            keep_blinded_messages,
            send_blinded_messages,
            split_payload: SplitRequest { amount, proofs, outputs },
        };
        proof {
            if keep_blinded_messages@.distinct() && send_blinded_messages@.distinct() {
                lemma_fresh_outputs(payload, proof_secrets(proofs@));
            }
        }
        Ok(payload)
    }
}

/// Outputs to keep and outputs to send are fresh together where each bundle
/// has no secret and no blinding factor twice, the two have none in common,
/// and neither has a secret of `used`.
pub proof fn lemma_fresh_outputs(payload: SplitPayload, used: Seq<Seq<char>>)
    requires
        payload.keep_blinded_messages@.distinct(),
        payload.send_blinded_messages@.distinct(),
        payload.keep_blinded_messages@.apart_from(payload.send_blinded_messages@),
        payload.keep_blinded_messages@.avoids(used),
        payload.send_blinded_messages@.avoids(used),
    ensures
        payload.fresh(used),
{
    let keep = payload.keep_blinded_messages@;
    let send = payload.send_blinded_messages@;
    lemma_no_dup_in_concat(keep.secrets, send.secrets);
    lemma_no_dup_in_concat(keep.rs, send.rs);
}

/// The amounts that well-formed outputs ask for are the amounts of their
/// messages.
pub proof fn lemma_output_amounts(outputs: BlindedMessagesView)
    requires
        outputs.wf(),
    ensures
        Seq::new(outputs.blinded_messages.len(), |i: int| outputs.blinded_messages[i].amount)
            == outputs.amounts,
{
    assert(Seq::new(outputs.blinded_messages.len(), |i: int| outputs.blinded_messages[i].amount)
        =~= outputs.amounts);
}

/// A split conserves value: where the amounts to keep and to send add up to
/// the value of the proofs that are given up, the request names that value as
/// its amount, and its outputs are worth exactly what its proofs are worth.
pub proof fn lemma_split_conserves_value(
    payload: SplitPayload,
    keep_amount: nat,
    send_amount: nat,
    proofs: Seq<Proof>,
)
    requires
        payload.splits(keep_amount, send_amount, proofs),
        keep_amount + send_amount == sum(proof_amounts(proofs)),
    ensures
        payload.split_payload.conserves_value(),
{
    let keep = payload.keep_blinded_messages@;
    let send = payload.send_blinded_messages@;
    let outputs = payload.split_payload.outputs@;
    lemma_output_amounts(keep);
    lemma_output_amounts(send);
    let asked = keep.amounts + send.amounts;
    assert(message_amounts(outputs) =~= asked) by {
        assert(views(outputs).len() == outputs.len());
        assert forall|i: int| 0 <= i < outputs.len() implies message_amounts(outputs)[i]
            == asked[i] by {
            assert(views(outputs)[i] == outputs[i]@);
        }
    }
    lemma_sum_concat(keep.amounts, send.amounts);
    lemma_binary_parts_sum(keep_amount, 1);
    lemma_binary_parts_sum(send_amount, 1);
}

/// Where the mint signs what it was asked to sign, a split gives back what
/// was put in: the proofs made from its answer are worth the amount to keep
/// and the amount to send, and together what the proofs given up were worth.
pub proof fn lemma_split_returns_value(
    payload: SplitPayload,
    response: SplitResponse,
    keys: Map<nat, Seq<u8>>,
    keep_amount: nat,
    send_amount: nat,
    proofs: Seq<Proof>,
)
    requires
        payload.splits(keep_amount, send_amount, proofs),
        keep_amount + send_amount == sum(proof_amounts(proofs)),
        promise_amounts(response.fst@) == payload.keep_blinded_messages@.amounts,
        promise_amounts(response.snd@) == payload.send_blinded_messages@.amounts,
        reconstructible(
            views(response.fst@),
            payload.keep_blinded_messages@.rs,
            payload.keep_blinded_messages@.secrets,
            keys,
        ),
        reconstructible(
            views(response.snd@),
            payload.send_blinded_messages@.rs,
            payload.send_blinded_messages@.secrets,
            keys,
        ),
    ensures
        ({
            let keep = payload.keep_blinded_messages@;
            let send = payload.send_blinded_messages@;
            let change_proofs = reconstructed(views(response.fst@), keep.rs, keep.secrets, keys);
            let send_proofs = reconstructed(views(response.snd@), send.rs, send.secrets, keys);
            &&& sum(proof_view_amounts(change_proofs)) == keep_amount
            &&& sum(proof_view_amounts(send_proofs)) == send_amount
            &&& sum(proof_view_amounts(change_proofs + send_proofs)) == sum(proof_amounts(proofs))
        }),
{
    let keep = payload.keep_blinded_messages@;
    let send = payload.send_blinded_messages@;
    let fst = views(response.fst@);
    let snd = views(response.snd@);
    let change_proofs = reconstructed(fst, keep.rs, keep.secrets, keys);
    let send_proofs = reconstructed(snd, send.rs, send.secrets, keys);
    lemma_reconstructed_proofs(fst, keep.rs, keep.secrets, keys);
    lemma_reconstructed_proofs(snd, send.rs, send.secrets, keys);
    assert(proof_view_amounts(change_proofs) =~= promise_amounts(response.fst@));
    assert(proof_view_amounts(send_proofs) =~= promise_amounts(response.snd@));
    lemma_binary_parts_sum(keep_amount, 1);
    lemma_binary_parts_sum(send_amount, 1);
    assert(proof_view_amounts(change_proofs + send_proofs) =~= proof_view_amounts(change_proofs)
        + proof_view_amounts(send_proofs));
    lemma_sum_concat(proof_view_amounts(change_proofs), proof_view_amounts(send_proofs));
}

} // verus!
