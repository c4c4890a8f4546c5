//! The blind-signature scheme: blinding a secret before the mint signs it, and
//! unblinding what the mint signed.
//!
//! The arithmetic on the curve is the `cashu` crate's. What it computes is not
//! proved here: each call has a name for its result, and the functions of this
//! module say what the wallet builds from those results.

use crate::error::Error;
use crate::keys::{MintKeys, PublicKey, SecretKey};
use crate::types::{proof_view_amounts, Promise, PromiseView, Proof, ProofView};
use crate::views::views;
use vstd::prelude::*;

verus! {

/// The blinded point `B_ = Y + rG` that `cashu::dhke::blind_message` computes
/// for a secret and the blinding factor `r`, in its compressed encoding; `None`
/// where `r` is no scalar of the curve or the call fails.
pub uninterp spec fn blinded_point(secret: Seq<char>, r: Seq<u8>) -> Option<Seq<u8>>;

/// The signature `C = C_ - rK` that `cashu::dhke::unblind_message` computes from
/// a blinded signature, the blinding factor `r` and the mint's key `K`, in its
/// compressed encoding; `None` where one of the three is no key of the curve
/// or the call fails.
pub uninterp spec fn unblinded_point(blinded: Seq<u8>, r: Seq<u8>, mint_key: Seq<u8>) -> Option<
    Seq<u8>,
>;

/// The bytes of a key that may be missing.
pub open spec fn key_bytes(key: Option<PublicKey>) -> Option<Seq<u8>> {
    match key {
        Some(key) => Some(key@),
        None => None,
    }
}

/// Whether `bytes` has the length of a point in its compressed encoding: one
/// byte for the sign and 32 for the coordinate.
pub open spec fn is_point_encoding(bytes: Seq<u8>) -> bool {
    bytes.len() == 33
}

/// Whether `c` is one of the digits `0` to `9` and `a` to `f`.
pub open spec fn is_hex_digit(c: char) -> bool {
    ('0' <= c && c <= '9') || ('a' <= c && c <= 'f')
}

/// Whether `secret` has the form of a generated secret: 32 bytes in
/// hexadecimal digits.
pub open spec fn is_generated_secret(secret: Seq<char>) -> bool {
    &&& secret.len() == 64
    &&& forall|i: int| 0 <= i < secret.len() ==> is_hex_digit(#[trigger] secret[i])
}

/// Whether the blinding of some secret with some blinding factor fails, both
/// of the form in which the wallet generates them.
pub open spec fn blinding_fails() -> bool {
    exists|secret: Seq<char>, r: Seq<u8>|
        is_generated_secret(secret) && r.len() == 32 && (#[trigger] blinded_point(secret, r))
            is None
}

/// A fresh secret from `cashu::secret::Secret::generate`: 32 random bytes,
/// written as 64 hexadecimal digits. Nothing is claimed of which digits.
#[verifier::external_body]
pub(crate) fn generate_secret() -> (secret: String)
    ensures
        is_generated_secret(secret@),
{
    cashu::secret::Secret::generate().to_string()
}

/// A fresh blinding factor from `cashu::nuts::nut01::SecretKey::generate`: a
/// random scalar of the curve in its 32 bytes. Nothing is claimed of which
/// scalar.
#[verifier::external_body]
pub(crate) fn generate_blinding_factor() -> (r: SecretKey)
    ensures
        r@.len() == 32,
{
    SecretKey { bytes: cashu::nuts::nut01::SecretKey::generate().to_secret_bytes().to_vec() }
}

/// Calls `cashu::dhke::blind_message` on the bytes of `secret` with the
/// blinding factor `r`, and returns the blinded point. The contract gives the
/// result its name, and claims beside it only that a point comes back in the
/// 33 bytes of its compressed encoding.
#[verifier::external_body]
pub(crate) fn blind(secret: &String, r: &SecretKey) -> (res: Option<PublicKey>)
    ensures
        key_bytes(res) == blinded_point(secret@, r@),
        res matches Some(b) ==> is_point_encoding(b@),
{
    let r = cashu::nuts::nut01::SecretKey::from_slice(&r.bytes).ok()?;
    let (b, _) = cashu::dhke::blind_message(secret.as_bytes(), Some(r)).ok()?;
    Some(PublicKey { bytes: b.to_bytes().to_vec() })
}

/// Calls `cashu::dhke::unblind_message` on a blinded signature, the blinding
/// factor of the output that was signed and the mint's key for its amount.
/// The contract gives the result its name, and claims beside it only that a
/// point comes back in the 33 bytes of its compressed encoding.
#[verifier::external_body]
pub(crate) fn unblind(blinded: &PublicKey, r: &SecretKey, mint_key: &PublicKey) -> (res: Option<
    PublicKey,
>)
    ensures
        key_bytes(res) == unblinded_point(blinded@, r@, mint_key@),
        res matches Some(c) ==> is_point_encoding(c@),
{
    let blinded = cashu::nuts::nut01::PublicKey::from_slice(&blinded.bytes).ok()?;
    let r = cashu::nuts::nut01::SecretKey::from_slice(&r.bytes).ok()?;
    let mint_key = cashu::nuts::nut01::PublicKey::from_slice(&mint_key.bytes).ok()?;
    let c = cashu::dhke::unblind_message(&blinded, &r, &mint_key).ok()?;
    Some(PublicKey { bytes: c.to_bytes().to_vec() })
}

/// The proof that a promise yields: the promise's keyset and amount, the
/// secret of the output that was signed, and the signature unblinded with the
/// key that the keyset has for the promise's amount. `None` where the keyset
/// has no such key or the signature cannot be unblinded.
pub open spec fn unblinded_proof(
    promise: PromiseView,
    r: Seq<u8>,
    secret: Seq<char>,
    keys: Map<nat, Seq<u8>>,
) -> Option<ProofView> {
    if keys.contains_key(promise.amount) {
        match unblinded_point(promise.c, r, keys[promise.amount]) {
            Some(c) => Some(
                ProofView { id: promise.id, amount: promise.amount, secret: secret, c: c },
            ),
            None => None,
        }
    } else {
        None
    }
}

/// Whether promises can be turned into proofs: there is one blinding factor
/// and one secret for each promise, and each promise yields a proof.
pub open spec fn reconstructible(
    promises: Seq<PromiseView>,
    rs: Seq<Seq<u8>>,
    secrets: Seq<Seq<char>>,
    keys: Map<nat, Seq<u8>>,
) -> bool {
    &&& promises.len() == rs.len()
    &&& promises.len() == secrets.len()
    &&& forall|i: int|
        0 <= i < promises.len() ==> (#[trigger] unblinded_proof(
            promises[i],
            rs[i],
            secrets[i],
            keys,
        )) is Some
}

/// The proofs that promises yield, each from the blinding factor and the
/// secret at its own position.
pub open spec fn reconstructed(
    promises: Seq<PromiseView>,
    rs: Seq<Seq<u8>>,
    secrets: Seq<Seq<char>>,
    keys: Map<nat, Seq<u8>>,
) -> Seq<ProofView> {
    Seq::new(
        promises.len(),
        |i: int| unblinded_proof(promises[i], rs[i], secrets[i], keys)->0,
    )
}

/// Whether the signature of each proof has the length of a point in its
/// compressed encoding.
pub open spec fn has_encoded_signatures(proofs: Seq<ProofView>) -> bool {
    forall|i: int| 0 <= i < proofs.len() ==> is_point_encoding((#[trigger] proofs[i]).c)
}

/// What the proofs made from promises hold: each has the keyset and the
/// amount of the promise at its position, the secret at its position, and
/// the promise's signature unblinded with the blinding factor at its position
/// and the key of the promise's amount.
pub proof fn lemma_reconstructed_proofs(
    promises: Seq<PromiseView>,
    rs: Seq<Seq<u8>>,
    secrets: Seq<Seq<char>>,
    keys: Map<nat, Seq<u8>>,
)
    requires
        reconstructible(promises, rs, secrets, keys),
    ensures
        reconstructed(promises, rs, secrets, keys).len() == promises.len(),
        forall|i: int|
            0 <= i < promises.len() ==> {
                let proof = #[trigger] reconstructed(promises, rs, secrets, keys)[i];
                &&& proof.id == promises[i].id
                &&& proof.amount == promises[i].amount
                &&& proof.secret == secrets[i]
                &&& keys.contains_key(promises[i].amount)
                &&& unblinded_point(promises[i].c, rs[i], keys[promises[i].amount]) == Some(
                    proof.c,
                )
            },
        proof_view_amounts(reconstructed(promises, rs, secrets, keys)) == Seq::new(
            promises.len(),
            |i: int| promises[i].amount,
        ),
{
    assert forall|i: int| 0 <= i < promises.len() implies {
        let proof = #[trigger] reconstructed(promises, rs, secrets, keys)[i];
        &&& proof.id == promises[i].id
        &&& proof.amount == promises[i].amount
        &&& proof.secret == secrets[i]
        &&& keys.contains_key(promises[i].amount)
        &&& unblinded_point(promises[i].c, rs[i], keys[promises[i].amount]) == Some(proof.c)
    } by {
        assert(unblinded_proof(promises[i], rs[i], secrets[i], keys) is Some);
    }
    assert(proof_view_amounts(reconstructed(promises, rs, secrets, keys)) =~= Seq::new(
        promises.len(),
        |i: int| promises[i].amount,
    ));
}

impl Proof {
    /// Builds the proof for a promise from what unblinding its signature gave.
    pub fn from_unblinded(promise: &Promise, secret: String, unblinded: Option<PublicKey>) -> (res:
        Result<Proof, Error>)
        ensures
            match unblinded {
                Some(c) => res is Ok && res->Ok_0@ == (ProofView {
                    id: promise.id@,
                    amount: promise.amount@,
                    secret: secret@,
                    c: c@,
                }),
                None => res == Err::<Proof, Error>(Error::ProofReconstructionError),
            },
    {
        match unblinded {
            Some(c) => Ok(Proof { id: promise.id.clone(), amount: promise.amount, secret, c }),
            None => Err(Error::ProofReconstructionError),
        }
    }
}

/// Turns the mint's promises into proofs. The promise at each position is
/// unblinded with the blinding factor at that position and paired with the
/// secret there; the order of the promises is the order of the proofs. Each
/// proof holds its signature in the 33 bytes of a point's encoding.
pub fn construct_proofs(
    promises: Vec<Promise>,
    rs: Vec<SecretKey>,
    secrets: Vec<String>,
    keys: &MintKeys,
) -> (res: Result<Vec<Proof>, Error>)
    ensures
        match res {
            Ok(proofs) => {
                &&& reconstructible(views(promises@), views(rs@), views(secrets@), keys@)
                &&& views(proofs@) == reconstructed(
                    views(promises@),
                    views(rs@),
                    views(secrets@),
                    keys@,
                )
                &&& has_encoded_signatures(views(proofs@))
            },
            Err(e) => {
                &&& e == Error::ProofReconstructionError
                &&& !reconstructible(views(promises@), views(rs@), views(secrets@), keys@)
            },
        },
{
    if promises.len() != rs.len() || promises.len() != secrets.len() {
        return Err(Error::ProofReconstructionError);
    }
    let mut proofs: Vec<Proof> = Vec::new();
    let mut i: usize = 0;
    while i < promises.len()
        invariant
            i <= promises.len(),
            promises.len() == rs.len(),
            promises.len() == secrets.len(),
            proofs.len() == i,
            forall|j: int|
                0 <= j < i ==> unblinded_proof(
                    #[trigger] views(promises@)[j],
                    views(rs@)[j],
                    views(secrets@)[j],
                    keys@,
                ) == Some(proofs[j]@),
            forall|j: int| 0 <= j < i ==> is_point_encoding((#[trigger] proofs[j])@.c),
        decreases promises.len() - i,
    {
        let promise = &promises[i];
        let unblinded = match keys.amount_key(promise.amount.to_sat()) {
            Some(mint_key) => unblind(&promise.c, &rs[i], mint_key),
            None => None,
        };
        let ghost at = i as int;
        assert(key_bytes(unblinded) is Some == unblinded_proof(
            views(promises@)[at],
            views(rs@)[at],
            views(secrets@)[at],
            keys@,
        ) is Some);
        let proof = match Proof::from_unblinded(promise, secrets[i].clone(), unblinded) {
            Ok(proof) => proof,
            Err(e) => {
                return Err(e);
            },
        };
        proofs.push(proof);
        i += 1;
    }
    assert(views(proofs@) =~= reconstructed(
        views(promises@),
        views(rs@),
        views(secrets@),
        keys@,
    ));
    Ok(proofs)
}

} // verus!
