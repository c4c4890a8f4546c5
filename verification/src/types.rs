//! The values that pass between the wallet, its caller and the mint.

use crate::amount::Amount;
use crate::keys::PublicKey;
use crate::views::{sum, views};
use vstd::prelude::*;

verus! {

/// One output that the mint is asked to sign: a denomination and a blinded
/// secret.
#[derive(Debug, PartialEq, Eq)]
pub struct BlindedMessage {
    pub amount: Amount,
    /// The blinded secret, `B_`.
    pub b: PublicKey,
}

/// A blinded message as a value: its amount and the bytes of its point.
pub struct BlindedMessageView {
    pub amount: nat,
    pub b: Seq<u8>,
}

impl View for BlindedMessage {
    type V = BlindedMessageView;

    open spec fn view(&self) -> BlindedMessageView {
        BlindedMessageView { amount: self.amount@, b: self.b@ }
    }
}

impl Clone for BlindedMessage {
    fn clone(&self) -> (res: BlindedMessage)
        ensures
            res@ == self@,
    {
        BlindedMessage { amount: self.amount, b: self.b.clone() }
    }
}

/// The mint's signature on one blinded message.
#[derive(Debug, PartialEq, Eq)]
pub struct Promise {
    /// The keyset whose key signed.
    pub id: String,
    pub amount: Amount,
    /// The blinded signature, `C_`.
    pub c: PublicKey,
}

/// A promise as a value: the keyset's name, the amount and the bytes of the
/// blinded signature.
pub struct PromiseView {
    pub id: Seq<char>,
    pub amount: nat,
    pub c: Seq<u8>,
}

impl View for Promise {
    type V = PromiseView;

    open spec fn view(&self) -> PromiseView {
        PromiseView { id: self.id@, amount: self.amount@, c: self.c@ }
    }
}

impl Clone for Promise {
    fn clone(&self) -> (res: Promise)
        ensures
            res@ == self@,
    {
        Promise { id: self.id.clone(), amount: self.amount, c: self.c.clone() }
    }
}

/// A bearer unit of value: a secret and the mint's unblinded signature on it.
#[derive(Debug, PartialEq, Eq)]
pub struct Proof {
    /// The keyset whose key signed.
    pub id: String,
    pub amount: Amount,
    pub secret: String,
    /// The unblinded signature, `C`.
    pub c: PublicKey,
}

/// A proof as a value: the keyset's name, the amount, the secret and the
/// bytes of the signature.
pub struct ProofView {
    pub id: Seq<char>,
    pub amount: nat,
    pub secret: Seq<char>,
    pub c: Seq<u8>,
}

impl View for Proof {
    type V = ProofView;

    open spec fn view(&self) -> ProofView {
        ProofView { id: self.id@, amount: self.amount@, secret: self.secret@, c: self.c@ }
    }
}

impl Clone for Proof {
    fn clone(&self) -> (res: Proof)
        ensures
            res@ == self@,
    {
        Proof {
            id: self.id.clone(),
            amount: self.amount,
            secret: self.secret.clone(),
            c: self.c.clone(),
        }
    }
}

/// The amounts of a sequence of proofs, one for one.
pub open spec fn proof_amounts(proofs: Seq<Proof>) -> Seq<nat> {
    Seq::new(proofs.len(), |i: int| proofs[i].amount@)
}

/// The amounts of a sequence of proofs that are given by their views, one for
/// one.
pub open spec fn proof_view_amounts(proofs: Seq<ProofView>) -> Seq<nat> {
    Seq::new(proofs.len(), |i: int| proofs[i].amount)
}

/// The secrets of a sequence of proofs, one for one.
pub open spec fn proof_secrets(proofs: Seq<Proof>) -> Seq<Seq<char>> {
    Seq::new(proofs.len(), |i: int| proofs[i].secret@)
}

/// The secrets of a sequence of proofs that are given by their views, one for
/// one.
pub open spec fn proof_view_secrets(proofs: Seq<ProofView>) -> Seq<Seq<char>> {
    Seq::new(proofs.len(), |i: int| proofs[i].secret)
}

/// The secrets of `proofs`, one for one.
pub fn secrets_of(proofs: &Vec<Proof>) -> (res: Vec<String>)
    ensures
        views(res@) == proof_secrets(proofs@),
{
    let mut secrets: Vec<String> = Vec::new();
    let mut i: usize = 0;
    while i < proofs.len()
        invariant
            i <= proofs.len(),
            secrets.len() == i,
            views(secrets@) == proof_secrets(proofs@).take(i as int),
        decreases proofs.len() - i,
    {
        let ghost before = secrets@;
        secrets.push(proofs[i].secret.clone());
        assert(views(secrets@) =~= views(before).push(proofs[i as int].secret@));
        assert(views(secrets@) =~= proof_secrets(proofs@).take(i + 1));
        i += 1;
    }
    assert(views(secrets@) =~= proof_secrets(proofs@));
    secrets
}

/// The amounts of a sequence of blinded messages, one for one.
pub open spec fn message_amounts(messages: Seq<BlindedMessage>) -> Seq<nat> {
    Seq::new(messages.len(), |i: int| messages[i].amount@)
}

/// The amounts of a sequence of promises, one for one.
pub open spec fn promise_amounts(promises: Seq<Promise>) -> Seq<nat> {
    Seq::new(promises.len(), |i: int| promises[i].amount@)
}

/// What the mint is sent to exchange proofs for new ones.
#[derive(Debug, PartialEq, Eq)]
pub struct SplitRequest {
    /// The total value that is split anew: what the proofs given up are
    /// worth.
    pub amount: Amount,
    /// The proofs that are given up.
    pub proofs: Vec<Proof>,
    /// The outputs to sign: those to keep, then those to send.
    pub outputs: Vec<BlindedMessage>,
}

impl SplitRequest {
    /// Whether the request names as its amount what the proofs that are
    /// given up are worth, and the outputs that the mint is asked to sign are
    /// worth exactly as much.
    pub open spec fn conserves_value(self) -> bool {
        &&& self.amount@ == sum(proof_amounts(self.proofs@))
        &&& sum(message_amounts(self.outputs@)) == sum(proof_amounts(self.proofs@))
    }
}

impl Clone for SplitRequest {
    fn clone(&self) -> (res: SplitRequest)
        ensures
            res.amount == self.amount,
            views(res.proofs@) == views(self.proofs@),
            views(res.outputs@) == views(self.outputs@),
    {
        let res = SplitRequest {
            amount: self.amount,
            proofs: self.proofs.clone(),
            outputs: self.outputs.clone(),
        };
        assert(views(res.proofs@) =~= views(self.proofs@));
        assert(views(res.outputs@) =~= views(self.outputs@));
        res
    }
}

/// The mint's answer to a split request: the signatures on the outputs to
/// keep, and those on the outputs to send, each in the order of its outputs.
#[derive(Debug, PartialEq, Eq)]
pub struct SplitResponse {
    pub fst: Vec<Promise>,
    pub snd: Vec<Promise>,
}

/// The proofs of a set as the mint reports them: those that can still be
/// spent, and those that were spent.
#[derive(Debug, PartialEq, Eq)]
pub struct ProofsStatus {
    pub spendable: Vec<Proof>,
    pub spent: Vec<Proof>,
}

/// Proofs parted for a payment: those to hand to the recipient, and those
/// that stay with the wallet.
#[derive(Debug, PartialEq, Eq)]
pub struct SendProofs {
    pub change_proofs: Vec<Proof>,
    pub send_proofs: Vec<Proof>,
}

/// The proofs of a token that one mint issued.
#[derive(Debug, PartialEq, Eq)]
pub struct Token {
    /// The address of the mint.
    pub mint: String,
    pub proofs: Vec<Proof>,
}

impl Clone for Token {
    fn clone(&self) -> (res: Token)
        ensures
            res.mint@ == self.mint@,
            views(res.proofs@) == views(self.proofs@),
    {
        let res = Token { mint: self.mint.clone(), proofs: self.proofs.clone() };
        assert(views(res.proofs@) =~= views(self.proofs@));
        res
    }
}

/// A decoded token: proofs grouped by mint.
#[derive(Debug, PartialEq, Eq)]
pub struct TokenData {
    pub token: Vec<Token>,
    pub memo: Option<String>,
}

/// The mint that a wallet is bound to, known by its address.
#[derive(Debug, PartialEq, Eq)]
pub struct CashuMint {
    pub url: String,
}

impl CashuMint {
    /// The mint at `url`.
    pub fn new(url: String) -> (res: CashuMint)
        ensures
            res.url == url,
    {
        CashuMint { url }
    }
}

} // verus!
