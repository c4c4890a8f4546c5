//! Blinded outputs, made ready for the mint to sign.

use crate::amount::{blank_count, denominations, Amount};
use crate::dhke::{
    blind, blinded_point, blinding_fails, generate_blinding_factor, generate_secret,
    is_generated_secret, is_point_encoding, key_bytes,
};
use crate::error::Error;
use crate::keys::{PublicKey, SecretKey};
use crate::types::{BlindedMessage, BlindedMessageView};
use crate::views::{lemma_sum_zeros, sum, views};
use vstd::prelude::*;

verus! {

/// Outputs for the mint to sign, with what the wallet needs to turn the
/// signatures into proofs. The four vectors run in parallel: the message, the
/// secret, the blinding factor and the amount at one position belong to one
/// output.
#[derive(Debug, PartialEq, Eq)]
pub struct BlindedMessages {
    pub blinded_messages: Vec<BlindedMessage>,
    pub secrets: Vec<String>,
    pub rs: Vec<SecretKey>,
    pub amounts: Vec<Amount>,
}

/// Outputs as values: the views of the four vectors.
pub struct BlindedMessagesView {
    pub blinded_messages: Seq<BlindedMessageView>,
    pub secrets: Seq<Seq<char>>,
    pub rs: Seq<Seq<u8>>,
    pub amounts: Seq<nat>,
}

impl BlindedMessagesView {
    /// No outputs.
    pub open spec fn empty() -> BlindedMessagesView {
        BlindedMessagesView {
            blinded_messages: Seq::empty(),
            secrets: Seq::empty(),
            rs: Seq::empty(),
            amounts: Seq::empty(),
        }
    }

    /// These outputs and one more.
    pub open spec fn push(
        self,
        amount: nat,
        secret: Seq<char>,
        r: Seq<u8>,
        b: Seq<u8>,
    ) -> BlindedMessagesView {
        BlindedMessagesView {
            blinded_messages: self.blinded_messages.push(BlindedMessageView { amount, b }),
            secrets: self.secrets.push(secret),
            rs: self.rs.push(r),
            amounts: self.amounts.push(amount),
        }
    }

    /// There is one secret, one blinding factor and one amount for each
    /// message, and each message asks for the amount at its position.
    pub open spec fn wf(self) -> bool {
        &&& self.secrets.len() == self.blinded_messages.len()
        &&& self.rs.len() == self.blinded_messages.len()
        &&& self.amounts.len() == self.blinded_messages.len()
        &&& forall|i: int|
            0 <= i < self.blinded_messages.len() ==> (#[trigger] self.blinded_messages[i]).amount
                == self.amounts[i]
    }

    /// Each message is the secret at its position, blinded with the blinding
    /// factor at its position.
    pub open spec fn paired(self) -> bool {
        forall|i: int|
            0 <= i < self.blinded_messages.len() ==> blinded_point(self.secrets[i], self.rs[i])
                == Some((#[trigger] self.blinded_messages[i]).b)
    }

    /// Each message holds its blinded secret in the 33 bytes of a point's
    /// compressed encoding.
    pub open spec fn encoded(self) -> bool {
        forall|i: int|
            0 <= i < self.blinded_messages.len() ==> is_point_encoding(
                (#[trigger] self.blinded_messages[i]).b,
            )
    }

    /// No secret and no blinding factor occurs twice.
    pub open spec fn distinct(self) -> bool {
        &&& self.secrets.no_duplicates()
        &&& self.rs.no_duplicates()
    }

    /// Whether `secret` or the blinding factor `r` is in use for one of these
    /// outputs.
    pub open spec fn uses(self, secret: Seq<char>, r: Seq<u8>) -> bool {
        self.secrets.contains(secret) || self.rs.contains(r)
    }

    /// No secret of these outputs is one of `used`.
    pub open spec fn avoids(self, used: Seq<Seq<char>>) -> bool {
        self.secrets.disjoint(used)
    }

    /// These outputs and `other` have no secret and no blinding factor in
    /// common.
    pub open spec fn apart_from(self, other: BlindedMessagesView) -> bool {
        &&& self.secrets.disjoint(other.secrets)
        &&& self.rs.disjoint(other.rs)
    }

    /// Each secret and each blinding factor has the form in which the wallet
    /// generates them.
    pub open spec fn generated(self) -> bool {
        &&& forall|i: int|
            0 <= i < self.secrets.len() ==> is_generated_secret(#[trigger] self.secrets[i])
        &&& forall|i: int| 0 <= i < self.rs.len() ==> (#[trigger] self.rs[i]).len() == 32
    }
}

impl View for BlindedMessages {
    type V = BlindedMessagesView;

    open spec fn view(&self) -> BlindedMessagesView {
        BlindedMessagesView {
            blinded_messages: views(self.blinded_messages@),
            secrets: views(self.secrets@),
            rs: views(self.rs@),
            amounts: views(self.amounts@),
        }
    }
}

impl BlindedMessages {
    /// A bundle without outputs.
    pub fn new() -> (res: BlindedMessages)
        ensures
            res@ == BlindedMessagesView::empty(),
    {
        let res = BlindedMessages {
            blinded_messages: Vec::new(),
            secrets: Vec::new(),
            rs: Vec::new(),
            amounts: Vec::new(),
        };
        assert(res@.blinded_messages =~= Seq::empty());
        assert(res@.secrets =~= Seq::empty());
        assert(res@.rs =~= Seq::empty());
        assert(res@.amounts =~= Seq::empty());
        res
    }

    /// Whether `secret` is the secret of one of the outputs.
    pub fn holds_secret(&self, secret: &String) -> (res: bool)
        ensures
            res == self@.secrets.contains(secret@),
    {
        let mut i: usize = 0;
        while i < self.secrets.len()
            invariant
                i <= self.secrets.len(),
                forall|j: int| 0 <= j < i ==> self@.secrets[j] != secret@,
            decreases self.secrets.len() - i,
        {
            if self.secrets[i] == *secret {
                assert(self@.secrets[i as int] == secret@);
                return true;
            }
            i += 1;
        }
        false
    }

    /// Whether `r` is the blinding factor of one of the outputs.
    pub fn holds_blinding_factor(&self, r: &SecretKey) -> (res: bool)
        ensures
            res == self@.rs.contains(r@),
    {
        let mut i: usize = 0;
        while i < self.rs.len()
            invariant
                i <= self.rs.len(),
                forall|j: int| 0 <= j < i ==> self@.rs[j] != r@,
            decreases self.rs.len() - i,
        {
            if self.rs[i].same_bytes(r) {
                assert(self@.rs[i as int] == r@);
                return true;
            }
            i += 1;
        }
        false
    }

    /// Whether no secret of the outputs is one of `used`.
    pub fn avoids(&self, used: &Vec<String>) -> (res: bool)
        ensures
            res == self@.avoids(views(used@)),
    {
        let mut j: usize = 0;
        while j < used.len()
            invariant
                j <= used.len(),
                forall|i: int, k: int|
                    0 <= i < self@.secrets.len() && 0 <= k < j ==> self@.secrets[i] != views(
                        used@,
                    )[k],
            decreases used.len() - j,
        {
            if self.holds_secret(&used[j]) {
                let ghost at = self@.secrets.index_of(used[j as int]@);
                assert(self@.secrets[at] == views(used@)[j as int]);
                return false;
            }
            j += 1;
        }
        true
    }

    /// Whether the outputs and those of `other` have no secret and no
    /// blinding factor in common.
    pub fn apart_from(&self, other: &BlindedMessages) -> (res: bool)
        ensures
            res == self@.apart_from(other@),
    {
        if !self.avoids(&other.secrets) {
            return false;
        }
        let mut j: usize = 0;
        while j < other.rs.len()
            invariant
                j <= other.rs.len(),
                self@.secrets.disjoint(other@.secrets),
                forall|i: int, k: int|
                    0 <= i < self@.rs.len() && 0 <= k < j ==> self@.rs[i] != other@.rs[k],
            decreases other.rs.len() - j,
        {
            if self.holds_blinding_factor(&other.rs[j]) {
                let ghost at = self@.rs.index_of(other.rs[j as int]@);
                assert(self@.rs[at] == other@.rs[j as int]);
                return false;
            }
            j += 1;
        }
        true
    }

    /// Adds the output for `amount` that was made from `secret` and the
    /// blinding factor `r`, given what blinding the secret returned.
    ///
    /// Nothing is added where the secret or the blinding factor is already
    /// that of an output, which is an error of its own, nor where the
    /// blinding failed.
    pub fn push_output(
        &mut self,
        amount: Amount,
        secret: String,
        r: SecretKey,
        blinded: Option<PublicKey>,
    ) -> (res: Result<(), Error>)
        ensures
            if old(self)@.uses(secret@, r@) {
                &&& res == Err::<(), Error>(Error::ReusedSecret)
                &&& *final(self) == *old(self)
            } else {
                match blinded {
                    Some(b) => res is Ok && final(self)@ == old(self)@.push(
                        amount@,
                        secret@,
                        r@,
                        b@,
                    ),
                    None => {
                        &&& res == Err::<(), Error>(Error::BlindingError)
                        &&& *final(self) == *old(self)
                    },
                }
            },
            old(self)@.wf() ==> final(self)@.wf(),
            old(self)@.distinct() ==> final(self)@.distinct(),
            old(self)@.wf() && old(self)@.paired() && key_bytes(blinded) == blinded_point(
                secret@,
                r@,
            ) ==> final(self)@.paired(),
            old(self)@.encoded() && (blinded matches Some(b) ==> is_point_encoding(b@))
                ==> final(self)@.encoded(),
            old(self)@.generated() && is_generated_secret(secret@) && r@.len() == 32
                ==> final(self)@.generated(),
    {
        if self.holds_secret(&secret) || self.holds_blinding_factor(&r) {
            return Err(Error::ReusedSecret);
        }
        match blinded {
            Some(b) => {
                self.blinded_messages.push(BlindedMessage { amount, b });
                self.secrets.push(secret);
                self.rs.push(r);
                self.amounts.push(amount);
                proof {
                    let before = old(self)@;
                    let after = before.push(amount@, secret@, r@, b@);
                    assert(self@.blinded_messages =~= after.blinded_messages);
                    assert(self@.secrets =~= after.secrets);
                    assert(self@.rs =~= after.rs);
                    assert(self@.amounts =~= after.amounts);
                    if before.distinct() {
                        assert forall|i: int, j: int|
                            0 <= i < after.secrets.len() && 0 <= j < after.secrets.len() && i
                                != j implies after.secrets[i] != after.secrets[j] by {
                            if i < before.secrets.len() {
                                assert(before.secrets[i] == after.secrets[i]);
                            }
                            if j < before.secrets.len() {
                                assert(before.secrets[j] == after.secrets[j]);
                            }
                        }
                        assert forall|i: int, j: int|
                            0 <= i < after.rs.len() && 0 <= j < after.rs.len() && i
                                != j implies after.rs[i] != after.rs[j] by {
                            if i < before.rs.len() {
                                assert(before.rs[i] == after.rs[i]);
                            }
                            if j < before.rs.len() {
                                assert(before.rs[j] == after.rs[j]);
                            }
                        }
                    }
                    if before.wf() && before.paired() && key_bytes(blinded) == blinded_point(
                        secret@,
                        r@,
                    ) {
                        let messages = after.blinded_messages;
                        assert forall|i: int| 0 <= i < messages.len() implies blinded_point(
                            after.secrets[i],
                            after.rs[i],
                        ) == Some((#[trigger] messages[i]).b) by {
                            if i < before.blinded_messages.len() {
                                assert(messages[i] == before.blinded_messages[i]);
                            }
                        }
                    }
                }
                Ok(())
            },
            None => Err(Error::BlindingError),
        }
    }

    /// Prepares one output for each canonical denomination of `amount`,
    /// smallest first, each with a fresh secret and a fresh blinding factor,
    /// and each message the secret blinded with that factor.
    ///
    /// No secret and no blinding factor is used for two of the outputs.
    ///
    /// For the amount zero the bundle is empty. For any other amount the call
    /// fails with `BlindingError` where the blinding of a secret fails, and,
    /// where the amount has more than one denomination, with `ReusedSecret`
    /// where the generator gives a secret or a blinding factor a second time.
    pub fn random(amount: Amount) -> (res: Result<BlindedMessages, Error>)
        ensures
            match res {
                Ok(outputs) => {
                    &&& outputs@.wf()
                    &&& outputs@.paired()
                    &&& outputs@.encoded()
                    &&& outputs@.generated()
                    &&& outputs@.distinct()
                    &&& outputs@.amounts == denominations(amount@)
                    &&& sum(outputs@.amounts) == amount@
                },
                Err(e) => {
                    &&& e == Error::BlindingError || e == Error::ReusedSecret
                    &&& amount@ > 0
                    &&& e == Error::BlindingError ==> blinding_fails()
                    &&& e == Error::ReusedSecret ==> denominations(amount@).len() >= 2
                },
            },
    {
        let parts = amount.split();
        let mut outputs = BlindedMessages::new();
        let mut i: usize = 0;
        while i < parts.len()
            invariant
                i <= parts.len(),
                views(parts@) == denominations(amount@),
                outputs@.wf(),
                outputs@.paired(),
                outputs@.encoded(),
                outputs@.generated(),
                outputs@.distinct(),
                outputs@.amounts == views(parts@).take(i as int),
            decreases parts.len() - i,
        {
            let secret = generate_secret();
            let r = generate_blinding_factor();
            let blinded = blind(&secret, &r);
            let ghost drawn = (secret@, r@);
            match outputs.push_output(parts[i], secret, r, blinded) {
                Ok(()) => {},
                Err(e) => {
                    assert(views(parts@).len() > 0);
                    assert(e == Error::BlindingError ==> blinded_point(drawn.0, drawn.1) is None);
                    return Err(e);
                },
            }
            assert(outputs@.amounts =~= views(parts@).take(i + 1));
            i += 1;
        }
        assert(outputs@.amounts =~= views(parts@));
        Ok(outputs)
    }

    /// Prepares blank outputs, each for the amount zero, for change that a
    /// payment may give back: as many as the base-two logarithm of
    /// `fee_reserve`, rounded up, and at least one. No secret and no blinding
    /// factor is used for two of the outputs.
    ///
    /// Fails with `BlindingError` where the blinding of a secret fails, and,
    /// where there is more than one output, with `ReusedSecret` where the
    /// generator gives a secret or a blinding factor a second time.
    pub fn blank(fee_reserve: Amount) -> (res: Result<BlindedMessages, Error>)
        ensures
            match res {
                Ok(outputs) => {
                    &&& outputs@.wf()
                    &&& outputs@.paired()
                    &&& outputs@.encoded()
                    &&& outputs@.generated()
                    &&& outputs@.distinct()
                    &&& outputs@.amounts == Seq::new(
                        blank_count(fee_reserve@),
                        |i: int| 0nat,
                    )
                    &&& sum(outputs@.amounts) == 0
                },
                Err(e) => {
                    &&& e == Error::BlindingError || e == Error::ReusedSecret
                    &&& e == Error::BlindingError ==> blinding_fails()
                    &&& e == Error::ReusedSecret ==> blank_count(fee_reserve@) >= 2
                },
            },
    {
        let count = fee_reserve.blank_count();
        let mut outputs = BlindedMessages::new();
        let mut i: u64 = 0;
        while i < count
            invariant
                i <= count,
                count == blank_count(fee_reserve@),
                outputs@.wf(),
                outputs@.paired(),
                outputs@.encoded(),
                outputs@.generated(),
                outputs@.distinct(),
                outputs@.amounts == Seq::new(i as nat, |j: int| 0nat),
            decreases count - i,
        {
            let secret = generate_secret();
            let r = generate_blinding_factor();
            let blinded = blind(&secret, &r);
            let ghost drawn = (secret@, r@);
            match outputs.push_output(Amount::zero(), secret, r, blinded) {
                Ok(()) => {},
                Err(e) => {
                    assert(e == Error::BlindingError ==> blinded_point(drawn.0, drawn.1) is None);
                    return Err(e);
                },
            }
            assert(outputs@.amounts =~= Seq::new((i + 1) as nat, |j: int| 0nat));
            i += 1;
        }
        proof {
            lemma_sum_zeros(outputs@.amounts);
        }
        Ok(outputs)
    }

    /// The messages to send to the mint.
    pub fn blinded_messages(&self) -> (res: Vec<BlindedMessage>)
        ensures
            views(res@) == self@.blinded_messages,
    {
        let res = self.blinded_messages.clone();
        assert(views(res@) =~= self@.blinded_messages);
        res
    }

    /// The secrets of the outputs.
    pub fn secrets(&self) -> (res: Vec<String>)
        ensures
            views(res@) == self@.secrets,
    {
        let res = self.secrets.clone();
        assert(views(res@) =~= self@.secrets);
        res
    }

    /// The blinding factors of the outputs.
    pub fn rs(&self) -> (res: Vec<SecretKey>)
        ensures
            views(res@) == self@.rs,
    {
        let res = self.rs.clone();
        assert(views(res@) =~= self@.rs);
        res
    }

    /// The amounts of the outputs.
    pub fn amounts(&self) -> (res: Vec<Amount>)
        ensures
            views(res@) == self@.amounts,
    {
        let res = self.amounts.clone();
        assert(views(res@) =~= self@.amounts);
        res
    }
}

} // verus!
