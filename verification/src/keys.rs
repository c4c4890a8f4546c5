//! Keys as the wallet carries them: plain bytes, in the encodings that the
//! mint's protocol uses on the wire.

use std::collections::HashMap;
use vstd::prelude::*;

verus! {

broadcast use vstd::std_specs::hash::group_hash_axioms;

/// A point on the curve in its SEC1 encoding.
#[derive(Debug, PartialEq, Eq)]
pub struct PublicKey {
    pub bytes: Vec<u8>,
}

impl View for PublicKey {
    type V = Seq<u8>;

    open spec fn view(&self) -> Seq<u8> {
        self.bytes@
    }
}

impl Clone for PublicKey {
    fn clone(&self) -> (res: PublicKey)
        ensures
            res@ == self@,
    {
        PublicKey { bytes: self.bytes.clone() }
    }
}

impl PublicKey {
    /// The key with the encoding `bytes`.
    pub fn from_bytes(bytes: Vec<u8>) -> (res: PublicKey)
        ensures
            res@ == bytes@,
    {
        PublicKey { bytes }
    }

    /// A copy of the encoding.
    pub fn to_bytes(&self) -> (res: Vec<u8>)
        ensures
            res@ == self@,
    {
        self.bytes.clone()
    }
}

/// A scalar in its big-endian encoding. The wallet uses one as the blinding
/// factor of each output that it prepares.
#[derive(Debug, PartialEq, Eq)]
pub struct SecretKey {
    pub bytes: Vec<u8>,
}

impl View for SecretKey {
    type V = Seq<u8>;

    open spec fn view(&self) -> Seq<u8> {
        self.bytes@
    }
}

impl Clone for SecretKey {
    fn clone(&self) -> (res: SecretKey)
        ensures
            res@ == self@,
    {
        SecretKey { bytes: self.bytes.clone() }
    }
}

impl SecretKey {
    /// Whether two scalars have the same encoding.
    pub fn same_bytes(&self, other: &SecretKey) -> (res: bool)
        ensures
            res == (self@ == other@),
    {
        if self.bytes.len() != other.bytes.len() {
            return false;
        }
        let mut i: usize = 0;
        while i < self.bytes.len()
            invariant
                i <= self.bytes.len(),
                self.bytes.len() == other.bytes.len(),
                self@.take(i as int) == other@.take(i as int),
            decreases self.bytes.len() - i,
        {
            if self.bytes[i] != other.bytes[i] {
                return false;
            }
            assert(self@.take(i + 1) =~= self@.take(i as int).push(self@[i as int]));
            assert(other@.take(i + 1) =~= other@.take(i as int).push(other@[i as int]));
            i += 1;
        }
        assert(self@.take(i as int) =~= self@);
        assert(other@.take(i as int) =~= other@);
        true
    }

    /// The scalar with the encoding `bytes`.
    pub fn from_bytes(bytes: Vec<u8>) -> (res: SecretKey)
        ensures
            res@ == bytes@,
    {
        SecretKey { bytes }
    }

    /// A copy of the encoding.
    pub fn to_bytes(&self) -> (res: Vec<u8>)
        ensures
            res@ == self@,
    {
        self.bytes.clone()
    }
}

/// The public keys of one keyset of a mint, one for each denomination.
#[derive(Debug)]
pub struct MintKeys {
    pub keys: HashMap<u64, PublicKey>,
}

impl View for MintKeys {
    type V = Map<nat, Seq<u8>>;

    open spec fn view(&self) -> Map<nat, Seq<u8>> {
        Map::new(
            |amount: nat| amount <= u64::MAX && self.keys@.contains_key(amount as u64),
            |amount: nat| self.keys@[amount as u64]@,
        )
    }
}

impl MintKeys {
    /// A keyset without keys.
    pub fn new() -> (res: MintKeys)
        ensures
            res@ == Map::<nat, Seq<u8>>::empty(),
    {
        let res = MintKeys { keys: HashMap::new() };
        assert(res@ =~= Map::<nat, Seq<u8>>::empty());
        res
    }

    /// Sets the key that signs `amount`.
    pub fn insert(&mut self, amount: u64, key: PublicKey)
        ensures
            final(self)@ == old(self)@.insert(amount as nat, key@),
    {
        self.keys.insert(amount, key);
        assert(self@ =~= old(self)@.insert(amount as nat, key@));
    }

    /// The key that signs `amount`, if the keyset has that denomination.
    pub fn amount_key(&self, amount: u64) -> (res: Option<&PublicKey>)
        ensures
            match res {
                Some(key) => self@.contains_key(amount as nat) && self@[amount as nat] == key@,
                None => !self@.contains_key(amount as nat),
            },
    {
        self.keys.get(&amount)
    }
}

} // verus!
