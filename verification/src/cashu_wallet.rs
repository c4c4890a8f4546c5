//! The wallet: the operations that a caller drives against one mint.
//!
//! The wallet holds the mint's address and the keys of its keyset, and nothing
//! else. An operation that needs the mint comes in steps: a step says what to
//! ask the mint, and the next step takes the mint's answer.

use crate::amount::Amount;
use crate::blinded_messages::BlindedMessages;
use crate::coin_select::{
    lemma_proof_amounts_take, lemma_reach_least, reach, select_proofs, selected_total,
    total_amount,
};
use crate::dhke::{
    blinding_fails, construct_proofs, has_encoded_signatures, is_generated_secret,
    lemma_reconstructed_proofs, reconstructed, reconstructible,
};
use crate::error::Error;
use crate::keys::MintKeys;
use crate::split::{lemma_split_conserves_value, lemma_split_returns_value, SplitPayload};
use crate::types::{
    promise_amounts, proof_amounts, proof_secrets, proof_view_amounts, proof_view_secrets,
    secrets_of, CashuMint, Proof, ProofView, ProofsStatus, SendProofs, SplitResponse, Token,
    TokenData,
};
use crate::views::{lemma_sum_concat, sum, views};
use vstd::prelude::*;

verus! {

/// A wallet bound to one mint and one of its keysets.
#[derive(Debug)]
pub struct CashuWallet {
    pub mint: CashuMint,
    pub keys: MintKeys,
}

/// Those of the first `n` proofs whose flag, at the same position in `flags`,
/// is `flag`, in their order.
pub open spec fn flagged(proofs: Seq<Proof>, flags: Seq<bool>, flag: bool, n: int) -> Seq<Proof>
    decreases n,
{
    if n <= 0 {
        Seq::empty()
    } else if flags[n - 1] == flag {
        flagged(proofs, flags, flag, n - 1).push(proofs[n - 1])
    } else {
        flagged(proofs, flags, flag, n - 1)
    }
}

/// The number of proofs that the mint has given a flag: all of them, or as
/// many as there are flags where those are fewer.
pub open spec fn answered(proofs: Seq<Proof>, flags: Seq<bool>) -> int {
    if proofs.len() <= flags.len() {
        proofs.len() as int
    } else {
        flags.len() as int
    }
}

/// Whether `status` parts `proofs` as the mint's flags say: a proof is
/// spendable where its flag is set and spent where it is not, and each part
/// keeps the order of `proofs`.
pub open spec fn is_status_of(status: ProofsStatus, proofs: Seq<Proof>, flags: Seq<bool>) -> bool {
    &&& status.spendable@ == flagged(proofs, flags, true, answered(proofs, flags))
    &&& status.spent@ == flagged(proofs, flags, false, answered(proofs, flags))
}

/// The first position from `k` on of a group that holds proofs; the number
/// of groups where none does.
pub open spec fn next_group(tokens: Seq<Token>, k: int) -> int
    decreases tokens.len() - k,
{
    if k >= tokens.len() || tokens[k].proofs@.len() > 0 {
        k
    } else {
        next_group(tokens, k + 1)
    }
}

/// The secrets of all the proofs of a token, group by group.
pub open spec fn token_secrets(tokens: Seq<Token>) -> Seq<Seq<char>>
    decreases tokens.len(),
{
    if tokens.len() == 0 {
        Seq::empty()
    } else {
        token_secrets(tokens.drop_last()) + proof_secrets(tokens.last().proofs@)
    }
}

/// What is left to do for a payment.
#[derive(Debug)]
pub enum SendStep {
    /// The proofs to send are at hand.
    Done(SendProofs),
    /// The mint has to split the proofs of the request first.
    Split(SplitPayload),
}

/// A token on its way into the wallet: the groups that wait to be redeemed,
/// the proofs that the groups before them gave, and the secrets that no new
/// proof may carry, which are those of the token's own proofs.
#[derive(Debug)]
pub struct ReceiveState {
    pub pending: Vec<Token>,
    pub proofs: Vec<Proof>,
    pub secrets: Vec<String>,
}

/// What is left to do for a token.
#[derive(Debug)]
pub enum ReceiveStep {
    /// Every group is redeemed: these are the wallet's new proofs.
    Done(Vec<Proof>),
    /// The mint has to split the proofs of the request; the state is the one
    /// to go on with when it has answered.
    Split(SplitPayload, ReceiveState),
}

impl ReceiveState {
    /// Whether no proof collected so far carries a secret of the list.
    pub open spec fn avoids_secrets(self) -> bool {
        proof_secrets(self.proofs@).disjoint(views(self.secrets@))
    }

    /// The state in which nothing of `token_data` is redeemed yet.
    pub fn new(token_data: TokenData) -> (res: ReceiveState)
        ensures
            res.pending == token_data.token,
            res.proofs@ == Seq::<Proof>::empty(),
            views(res.secrets@) == token_secrets(token_data.token@),
            res.avoids_secrets(),
    {
        let ghost tokens = token_data.token@;
        let mut secrets: Vec<String> = Vec::new();
        let mut i: usize = 0;
        assert(views(secrets@) =~= token_secrets(tokens.take(0)));
        while i < token_data.token.len()
            invariant
                i <= token_data.token.len(),
                tokens == token_data.token@,
                views(secrets@) == token_secrets(tokens.take(i as int)),
            decreases token_data.token.len() - i,
        {
            let mut group = secrets_of(&token_data.token[i].proofs);
            let ghost before = secrets@;
            let ghost added = group@;
            secrets.append(&mut group);
            assert(tokens.take(i + 1).drop_last() =~= tokens.take(i as int));
            assert(views(secrets@) =~= views(before) + views(added));
            i += 1;
        }
        assert(tokens.take(i as int) =~= tokens);
        ReceiveState { pending: token_data.token, proofs: Vec::new(), secrets }
    }
}

/// Both parts of a status together hold as many proofs as the mint has given
/// a flag.
pub proof fn lemma_flagged_len(proofs: Seq<Proof>, flags: Seq<bool>, n: int)
    requires
        0 <= n,
    ensures
        flagged(proofs, flags, true, n).len() + flagged(proofs, flags, false, n).len() == n,
    decreases n,
{
    if n > 0 {
        lemma_flagged_len(proofs, flags, n - 1);
    }
}

/// Asking again about the same proofs, with the same answer from the mint,
/// gives the same status: the status is determined by the proofs and the
/// flags, and its two parts together hold each flagged proof once.
pub proof fn lemma_check_proofs_spent_repeatable(
    proofs: Seq<Proof>,
    flags: Seq<bool>,
    first: ProofsStatus,
    second: ProofsStatus,
)
    requires
        is_status_of(first, proofs, flags),
        is_status_of(second, proofs, flags),
    ensures
        first.spendable@ == second.spendable@,
        first.spent@ == second.spent@,
        first.spendable@.len() + first.spent@.len() == answered(proofs, flags),
{
    lemma_flagged_len(proofs, flags, answered(proofs, flags));
}

/// Redeeming a group gives back its value in proofs of the wallet's own.
/// Where the mint signs each output of the split that `receive` prepared, for
/// the amount that the output asks for, the proofs that `receive_split` adds
/// to those collected so far are worth what the proofs of the group were
/// worth, and each carries a secret that the wallet generated for the split.
pub proof fn lemma_receive_returns_value(
    payload: SplitPayload,
    response: SplitResponse,
    keys: Map<nat, Seq<u8>>,
    group: Seq<Proof>,
    collected: Seq<ProofView>,
)
    requires
        payload.splits(0, sum(proof_amounts(group)), group),
        promise_amounts(response.fst@) == payload.keep_blinded_messages@.amounts,
        promise_amounts(response.snd@) == payload.send_blinded_messages@.amounts,
        reconstructible(
            views(response.fst@),
            payload.keep_blinded_messages@.rs,
            payload.keep_blinded_messages@.secrets,
            keys,
        ),
        reconstructible(
            views(response.snd@),
            payload.send_blinded_messages@.rs,
            payload.send_blinded_messages@.secrets,
            keys,
        ),
    ensures
        ({
            let keep = payload.keep_blinded_messages@;
            let send = payload.send_blinded_messages@;
            let added = reconstructed(views(response.fst@), keep.rs, keep.secrets, keys)
                + reconstructed(views(response.snd@), send.rs, send.secrets, keys);
            &&& sum(proof_view_amounts(collected + added)) == sum(proof_view_amounts(collected))
                + sum(proof_amounts(group))
            &&& forall|i: int|
                0 <= i < added.len() ==> is_generated_secret((#[trigger] added[i]).secret)
        }),
{
    let keep = payload.keep_blinded_messages@;
    let send = payload.send_blinded_messages@;
    let change_proofs = reconstructed(views(response.fst@), keep.rs, keep.secrets, keys);
    let send_proofs = reconstructed(views(response.snd@), send.rs, send.secrets, keys);
    let added = change_proofs + send_proofs;
    lemma_split_returns_value(payload, response, keys, 0, sum(proof_amounts(group)), group);
    assert(proof_view_amounts(collected + added) =~= proof_view_amounts(collected)
        + proof_view_amounts(added));
    lemma_sum_concat(proof_view_amounts(collected), proof_view_amounts(added));
    lemma_reconstructed_proofs(views(response.fst@), keep.rs, keep.secrets, keys);
    lemma_reconstructed_proofs(views(response.snd@), send.rs, send.secrets, keys);
    assert forall|i: int| 0 <= i < added.len() implies is_generated_secret(
        (#[trigger] added[i]).secret,
    ) by {
        if i < change_proofs.len() {
            assert(added[i] == change_proofs[i]);
            assert(is_generated_secret(keep.secrets[i]));
        } else {
            let j = i - change_proofs.len();
            assert(added[i] == send_proofs[j]);
            assert(is_generated_secret(send.secrets[j]));
        }
    }
}

/// Redeeming a token hands out none of its secrets. Where the outputs of a
/// split carry no secret of `used`, as those that `receive` prepares carry
/// none of the token, and no proof collected so far carries one, no proof
/// carries one after `receive_split` has added those of the split.
pub proof fn lemma_receive_avoids_secrets(
    payload: SplitPayload,
    response: SplitResponse,
    keys: Map<nat, Seq<u8>>,
    used: Seq<Seq<char>>,
    collected: Seq<ProofView>,
)
    requires
        payload.fresh(used),
        proof_view_secrets(collected).disjoint(used),
        reconstructible(
            views(response.fst@),
            payload.keep_blinded_messages@.rs,
            payload.keep_blinded_messages@.secrets,
            keys,
        ),
        reconstructible(
            views(response.snd@),
            payload.send_blinded_messages@.rs,
            payload.send_blinded_messages@.secrets,
            keys,
        ),
    ensures
        ({
            let keep = payload.keep_blinded_messages@;
            let send = payload.send_blinded_messages@;
            let added = reconstructed(views(response.fst@), keep.rs, keep.secrets, keys)
                + reconstructed(views(response.snd@), send.rs, send.secrets, keys);
            &&& proof_view_secrets(added) == keep.secrets + send.secrets
            &&& proof_view_secrets(added).no_duplicates()
            &&& proof_view_secrets(collected + added).disjoint(used)
        }),
{
    let keep = payload.keep_blinded_messages@;
    let send = payload.send_blinded_messages@;
    let change_proofs = reconstructed(views(response.fst@), keep.rs, keep.secrets, keys);
    let send_proofs = reconstructed(views(response.snd@), send.rs, send.secrets, keys);
    let added = change_proofs + send_proofs;
    lemma_reconstructed_proofs(views(response.fst@), keep.rs, keep.secrets, keys);
    lemma_reconstructed_proofs(views(response.snd@), send.rs, send.secrets, keys);
    assert(proof_view_secrets(added) =~= keep.secrets + send.secrets) by {
        assert forall|i: int| 0 <= i < added.len() implies proof_view_secrets(added)[i] == (
        keep.secrets + send.secrets)[i] by {
            if i < change_proofs.len() {
                assert(added[i] == change_proofs[i]);
            } else {
                assert(added[i] == send_proofs[i - change_proofs.len()]);
            }
        }
    }
    assert forall|i: int, j: int|
        0 <= i < (collected + added).len() && 0 <= j < used.len() implies proof_view_secrets(
        collected + added,
    )[i] != used[j] by {
        if i < collected.len() {
            assert(proof_view_secrets(collected + added)[i] == proof_view_secrets(collected)[i]);
        } else {
            assert(proof_view_secrets(collected + added)[i] == proof_view_secrets(added)[i
                - collected.len()]);
        }
    }
}

impl CashuWallet {
    /// A wallet for `mint`, whose keyset has `keys`.
    pub fn new(mint: CashuMint, keys: MintKeys) -> (res: CashuWallet)
        ensures
            res.mint == mint,
            res.keys == keys,
    {
        CashuWallet { mint, keys }
    }

    /// Parts `proofs` into those that can still be spent and those that were
    /// spent, by the flags that the mint gave for them, position by position.
    /// A proof without a flag is in neither part.
    pub fn check_proofs_spent(
        &self,
        proofs: Vec<Proof>,
        spendable: Vec<bool>,
    ) -> (res: ProofsStatus)
        ensures
            is_status_of(res, proofs@, spendable@),
    {
        let mut status = ProofsStatus { spendable: Vec::new(), spent: Vec::new() };
        let n = proofs.len();
        let mut i: usize = 0;
        for proof in it: proofs
            invariant
                i == it.index(),
                it.seq() == proofs@,
                proofs@.len() == n,
                status.spendable@ == flagged(
                    proofs@,
                    spendable@,
                    true,
                    if i <= spendable.len() {
                        i as int
                    } else {
                        spendable.len() as int
                    },
                ),
                status.spent@ == flagged(
                    proofs@,
                    spendable@,
                    false,
                    if i <= spendable.len() {
                        i as int
                    } else {
                        spendable.len() as int
                    },
                ),
        {
            if i < spendable.len() {
                if spendable[i] {
                    status.spendable.push(proof);
                } else {
                    status.spent.push(proof);
                }
            }
            i += 1;
        }
        status
    }

    /// Prepares the split of `proofs` into `keep_amount` for the wallet and
    /// `send_amount` for a recipient: fresh outputs for the denominations of
    /// each amount, the outputs to keep before the outputs to send. The
    /// request names the value of `proofs` as the amount that is split.
    ///
    /// No secret and no blinding factor is used for two of the outputs, and
    /// no output carries the secret of one of `proofs`.
    ///
    /// The two amounts must add up to the value of `proofs`; else the call
    /// fails with `AmountMismatch`, and with `AmountError` where that value
    /// does not fit into an amount. Where both hold, the call fails only where
    /// the blinding of a secret fails, with `BlindingError`, or where the
    /// generator gives a secret or a blinding factor that is in use, with
    /// `ReusedSecret`.
    pub fn create_split(
        &self,
        keep_amount: Amount,
        send_amount: Amount,
        proofs: Vec<Proof>,
    ) -> (res: Result<SplitPayload, Error>)
        ensures
            ({
                let total = sum(proof_amounts(proofs@));
                match res {
                    Ok(payload) => {
                        &&& keep_amount@ + send_amount@ == total
                        &&& payload.splits(keep_amount@, send_amount@, proofs@)
                        &&& payload.split_payload.conserves_value()
                    },
                    Err(e) => {
                        &&& e == Error::AmountError || e == Error::AmountMismatch || e
                            == Error::BlindingError || e == Error::ReusedSecret
                        &&& e == Error::AmountError <==> total > u64::MAX
                        &&& e == Error::AmountMismatch <==> total <= u64::MAX && keep_amount@
                            + send_amount@ != total
                        &&& e == Error::BlindingError ==> total > 0 && blinding_fails()
                        &&& e == Error::ReusedSecret ==> total > 0
                    },
                }
            }),
    {
        let total = match total_amount(&proofs) {
            Some(total) => total,
            None => {
                return Err(Error::AmountError);
            },
        };
        match keep_amount.checked_add(send_amount) {
            Some(asked) => {
                if asked.to_sat() != total.to_sat() {
                    return Err(Error::AmountMismatch);
                }
            },
            None => {
                return Err(Error::AmountMismatch);
            },
        }
        let keep_blinded_messages = match BlindedMessages::random(keep_amount) {
            Ok(outputs) => outputs,
            Err(e) => {
                return Err(e);
            },
        };
        let send_blinded_messages = match BlindedMessages::random(send_amount) {
            Ok(outputs) => outputs,
            Err(e) => {
                return Err(e);
            },
        };
        let payload = match SplitPayload::new(
            keep_blinded_messages,
            send_blinded_messages,
            total,
            proofs,
        ) {
            Ok(payload) => payload,
            Err(e) => {
                return Err(e);
            },
        };
        proof {
            lemma_split_conserves_value(payload, keep_amount@, send_amount@, proofs@);
        }
        Ok(payload)
    }

    /// Turns the mint's answer to a split into proofs: the signatures on the
    /// outputs to keep become the change, those on the outputs to send become
    /// the proofs to send, each group in the order of its outputs. Each proof
    /// holds its signature in the 33 bytes of a point's encoding.
    ///
    /// Fails with `ProofReconstructionError` where a group of the answer does
    /// not have one promise for each output of its half of the request, or a
    /// promise cannot be unblinded with the keys of the wallet's keyset.
    pub fn process_split_response(
        &self,
        payload: SplitPayload,
        response: SplitResponse,
    ) -> (res: Result<SendProofs, Error>)
        ensures
            ({
                let keep = payload.keep_blinded_messages@;
                let send = payload.send_blinded_messages@;
                let fst = views(response.fst@);
                let snd = views(response.snd@);
                let both = reconstructible(fst, keep.rs, keep.secrets, self.keys@)
                    && reconstructible(snd, send.rs, send.secrets, self.keys@);
                match res {
                    Ok(proofs) => {
                        &&& both
                        &&& views(proofs.change_proofs@) == reconstructed(
                            fst,
                            keep.rs,
                            keep.secrets,
                            self.keys@,
                        )
                        &&& views(proofs.send_proofs@) == reconstructed(
                            snd,
                            send.rs,
                            send.secrets,
                            self.keys@,
                        )
                        &&& has_encoded_signatures(views(proofs.change_proofs@))
                        &&& has_encoded_signatures(views(proofs.send_proofs@))
                    },
                    Err(e) => e == Error::ProofReconstructionError && !both,
                }
            }),
    {
        let SplitPayload { keep_blinded_messages, send_blinded_messages, split_payload } = payload;
        let SplitResponse { fst, snd } = response;
        let change_proofs = match construct_proofs(
            fst,
            keep_blinded_messages.rs,
            keep_blinded_messages.secrets,
            &self.keys,
        ) {
            Ok(proofs) => proofs,
            Err(e) => {
                return Err(e);
            },
        };
        let send_proofs = match construct_proofs(
            snd,
            send_blinded_messages.rs,
            send_blinded_messages.secrets,
            &self.keys,
        ) {
            Ok(proofs) => proofs,
            Err(e) => {
                return Err(e);
            },
        };
        Ok(SendProofs { change_proofs, send_proofs })
    }

    /// Begins a payment of `amount` out of `proofs`.
    ///
    /// The proofs are selected in their order until their total reaches
    /// `amount`. Where the total equals `amount`, the selected proofs are the
    /// ones to send and the payment needs no mint. Where it exceeds `amount`,
    /// all the selected proofs go into a split of their total, with `amount`
    /// to send and the rest of the total to keep; the mint's answer then gives
    /// the proofs to send and the change.
    ///
    /// Fails with `InsufficientFunds` where the proofs do not add up to
    /// `amount`, with `AmountError` where the total at which the selection
    /// stops does not fit into an amount, and, where a split is needed, as
    /// `create_split` does.
    pub fn send(&self, amount: Amount, proofs: Vec<Proof>) -> (res: Result<SendStep, Error>)
        ensures
            ({
                let values = proof_amounts(proofs@);
                let k = reach(values, amount@);
                let total = selected_total(values, amount@);
                match res {
                    Ok(SendStep::Done(parted)) => {
                        &&& total == amount@
                        &&& parted.send_proofs@ == proofs@.take(k)
                        &&& parted.change_proofs@ == Seq::<Proof>::empty()
                        &&& sum(proof_amounts(parted.send_proofs@)) == amount@
                    },
                    Ok(SendStep::Split(payload)) => {
                        &&& amount@ < total <= u64::MAX
                        &&& payload.splits((total - amount@) as nat, amount@, proofs@.take(k))
                        &&& payload.split_payload.conserves_value()
                    },
                    Err(e) => {
                        &&& e == Error::InsufficientFunds || e == Error::AmountError || e
                            == Error::BlindingError || e == Error::ReusedSecret
                        &&& e == Error::InsufficientFunds <==> total < amount@
                        &&& e == Error::AmountError <==> total > u64::MAX
                        &&& e == Error::BlindingError ==> amount@ < total && blinding_fails()
                        &&& e == Error::ReusedSecret ==> amount@ < total
                    },
                }
            }),
    {
        let ghost values = proof_amounts(proofs@);
        let ghost k = reach(values, amount@);
        let selection = match select_proofs(amount, proofs) {
            Ok(selection) => selection,
            Err(e) => {
                return Err(e);
            },
        };
        if selection.change_proofs.len() == 0 {
            return Ok(SendStep::Done(selection));
        }
        let SendProofs { change_proofs, send_proofs } = selection;
        let mut inputs = send_proofs;
        let mut overshoot = change_proofs;
        inputs.append(&mut overshoot);
        proof {
            lemma_reach_least(values, amount@);
            assert(inputs@ =~= proofs@.take(k));
            lemma_proof_amounts_take(proofs@, k);
        }
        let total = match total_amount(&inputs) {
            Some(total) => total,
            None => {
                return Err(Error::AmountError);
            },
        };
        let keep_amount = match total.checked_sub(amount) {
            Some(rest) => rest,
            None => {
                return Err(Error::AmountError);
            },
        };
        match self.create_split(keep_amount, amount, inputs) {
            Ok(payload) => Ok(SendStep::Split(payload)),
            Err(e) => Err(e),
        }
    }

    /// Goes on with a token: skips the groups without proofs and prepares the
    /// redemption of the first group that holds some.
    ///
    /// The group is redeemed by a split that keeps nothing and sends the
    /// whole value of its proofs, so that the mint checks the proofs and the
    /// wallet gets new ones of its own in exchange. Where no group with proofs
    /// is left, the proofs collected so far are the result.
    ///
    /// No output of the split carries a secret of the state's list, which
    /// holds the secrets of the token.
    ///
    /// Fails with `UnknownMint` where the group names another mint than the
    /// wallet's, with `AmountError` where the value of its proofs does not fit
    /// into an amount, with `BlindingError` where the blinding of a secret
    /// fails, and with `ReusedSecret` where the generator gives a secret or a
    /// blinding factor that is in use.
    pub fn receive(&self, state: ReceiveState) -> (res: Result<ReceiveStep, Error>)
        ensures
            ({
                let tokens = state.pending@;
                let j = next_group(tokens, 0);
                if j >= tokens.len() {
                    res matches Ok(ReceiveStep::Done(proofs)) && proofs == state.proofs
                } else {
                    let total = sum(proof_amounts(tokens[j].proofs@));
                    match res {
                        Ok(ReceiveStep::Done(_)) => false,
                        Ok(ReceiveStep::Split(payload, rest)) => {
                            &&& tokens[j].mint@ == self.mint.url@
                            &&& total <= u64::MAX
                            &&& payload.splits(0, total, tokens[j].proofs@)
                            &&& payload.split_payload.conserves_value()
                            &&& payload.fresh(views(state.secrets@))
                            &&& rest.pending@ == tokens.skip(j + 1)
                            &&& rest.proofs == state.proofs
                            &&& rest.secrets == state.secrets
                        },
                        Err(e) => {
                            &&& e == Error::UnknownMint || e == Error::AmountError || e
                                == Error::BlindingError || e == Error::ReusedSecret
                            &&& e == Error::UnknownMint <==> tokens[j].mint@ != self.mint.url@
                            &&& e == Error::AmountError <==> tokens[j].mint@ == self.mint.url@
                                && total > u64::MAX
                            &&& e == Error::BlindingError ==> total > 0 && blinding_fails()
                            &&& e == Error::ReusedSecret ==> total > 0
                        },
                    }
                }
            }),
    {
        let ReceiveState { pending, proofs, secrets } = state;
        let mut pending = pending;
        let ghost tokens = pending@;
        let ghost mut skipped: int = 0;
        assert(tokens.skip(0) =~= tokens);
        while pending.len() > 0
            invariant
                tokens == state.pending@,
                proofs == state.proofs,
                secrets == state.secrets,
                0 <= skipped <= tokens.len(),
                pending@ == tokens.skip(skipped),
                next_group(tokens, 0) == next_group(tokens, skipped),
            decreases pending.len(),
        {
            let token = pending.remove(0);
            assert(token == tokens[skipped]);
            assert(pending@ =~= tokens.skip(skipped + 1));
            if token.proofs.len() > 0 {
                if !(token.mint == self.mint.url) {
                    return Err(Error::UnknownMint);
                }
                let amount = match total_amount(&token.proofs) {
                    Some(amount) => amount,
                    None => {
                        return Err(Error::AmountError);
                    },
                };
                let payload = match self.create_split(Amount::zero(), amount, token.proofs) {
                    Ok(payload) => payload,
                    Err(e) => {
                        return Err(e);
                    },
                };
                if !payload.keep_blinded_messages.avoids(&secrets)
                    || !payload.send_blinded_messages.avoids(&secrets) {
                    return Err(Error::ReusedSecret);
                }
                let rest = ReceiveState { pending, proofs, secrets };
                return Ok(ReceiveStep::Split(payload, rest));
            }
            proof {
                skipped = skipped + 1;
            }
        }
        Ok(ReceiveStep::Done(proofs))
    }

    /// Takes the mint's answer to the split that `receive` prepared, and adds
    /// the proofs that it gives to those collected so far: first those of the
    /// outputs to keep, then those of the outputs to send. Each proof that is
    /// added holds its signature in the 33 bytes of a point's encoding. Where
    /// no proof collected so far and no output of the split carries a secret
    /// of the state's list, no proof carries one afterwards.
    ///
    /// Fails as `process_split_response` does.
    pub fn receive_split(
        &self,
        state: ReceiveState,
        payload: SplitPayload,
        response: SplitResponse,
    ) -> (res: Result<ReceiveState, Error>)
        ensures
            ({
                let keep = payload.keep_blinded_messages@;
                let send = payload.send_blinded_messages@;
                let fst = views(response.fst@);
                let snd = views(response.snd@);
                let both = reconstructible(fst, keep.rs, keep.secrets, self.keys@)
                    && reconstructible(snd, send.rs, send.secrets, self.keys@);
                match res {
                    Ok(next) => {
                        &&& both
                        &&& next.pending == state.pending
                        &&& next.secrets == state.secrets
                        &&& views(next.proofs@) == views(state.proofs@) + reconstructed(
                            fst,
                            keep.rs,
                            keep.secrets,
                            self.keys@,
                        ) + reconstructed(snd, send.rs, send.secrets, self.keys@)
                        &&& has_encoded_signatures(
                            views(next.proofs@).skip(state.proofs@.len() as int),
                        )
                        &&& state.avoids_secrets() && payload.fresh(views(state.secrets@))
                            ==> next.avoids_secrets()
                    },
                    Err(e) => e == Error::ProofReconstructionError && !both,
                }
            }),
    {
        let SendProofs { change_proofs, send_proofs } = match self.process_split_response(
            payload,
            response,
        ) {
            Ok(proofs) => proofs,
            Err(e) => {
                return Err(e);
            },
        };
        let ReceiveState { pending, proofs, secrets } = state;
        let mut proofs = proofs;
        let mut change_proofs = change_proofs;
        let mut send_proofs = send_proofs;
        let ghost kept = change_proofs@;
        let ghost sent = send_proofs@;
        proofs.append(&mut change_proofs);
        proofs.append(&mut send_proofs);
        assert(views(proofs@) =~= views(state.proofs@) + views(kept) + views(sent));
        proof {
            let used = views(state.secrets@);
            assert(proof_view_secrets(views(state.proofs@)) =~= proof_secrets(state.proofs@));
            assert(proof_view_secrets(views(proofs@)) =~= proof_secrets(proofs@));
            if state.avoids_secrets() && payload.fresh(used) {
                lemma_receive_avoids_secrets(
                    payload,
                    response,
                    self.keys@,
                    used,
                    views(state.proofs@),
                );
                assert(views(proofs@) =~= views(state.proofs@) + (views(kept) + views(sent)));
            }
        }
        Ok(ReceiveState { pending, proofs, secrets })
    }
}

} // verus!
