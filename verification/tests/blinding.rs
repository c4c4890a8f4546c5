use std::collections::HashSet;

use cashu_rs::amount::Amount;
use cashu_rs::blinded_messages::BlindedMessages;
use cashu_rs::dhke::construct_proofs;
use cashu_rs::error::Error;
use cashu_rs::keys::{MintKeys, PublicKey, SecretKey};
use cashu_rs::types::{BlindedMessage, Promise, Proof};

fn unhex(text: &str) -> Vec<u8> {
    cashu::util::hex::decode(text).unwrap()
}

fn scalar(last: u8) -> Vec<u8> {
    let mut bytes = vec![0u8; 32];
    bytes[31] = last;
    bytes
}

/// What the outside crate computes for a secret and a given blinding factor.
fn blinded_by_hand(secret: &str, r: &[u8]) -> Vec<u8> {
    let r = cashu::nuts::nut01::SecretKey::from_slice(r).unwrap();
    let (b, _) = cashu::dhke::blind_message(secret.as_bytes(), Some(r)).unwrap();
    b.to_bytes().to_vec()
}

fn sats(parts: &[Amount]) -> Vec<u64> {
    parts.iter().map(|part| part.to_sat()).collect()
}

#[test]
fn random_makes_one_output_for_each_denomination() {
    let outputs = BlindedMessages::random(Amount::from_sat(13)).unwrap();
    assert_eq!(sats(&outputs.amounts), vec![1, 4, 8]);
    assert_eq!(outputs.blinded_messages.len(), 3);
    assert_eq!(outputs.secrets.len(), 3);
    assert_eq!(outputs.rs.len(), 3);
    for (message, amount) in outputs.blinded_messages.iter().zip(&outputs.amounts) {
        assert_eq!(message.amount, *amount);
    }
}

#[test]
fn random_outputs_add_up_to_the_amount() {
    for value in [0u64, 1, 2, 21, 100, 4096, 65535, 1_000_000] {
        let outputs = BlindedMessages::random(Amount::from_sat(value)).unwrap();
        let total: u64 = outputs.blinded_messages.iter().map(|m| m.amount.to_sat()).sum();
        assert_eq!(total, value);
        let total: u64 = outputs.amounts.iter().map(|a| a.to_sat()).sum();
        assert_eq!(total, value);
    }
}

#[test]
fn random_of_zero_is_empty() {
    let outputs = BlindedMessages::random(Amount::zero()).unwrap();
    assert_eq!(outputs, BlindedMessages::new());
    assert!(outputs.blinded_messages.is_empty());
    assert!(outputs.secrets.is_empty());
    assert!(outputs.rs.is_empty());
    assert!(outputs.amounts.is_empty());
}

#[test]
fn random_secrets_and_blinding_factors_are_fresh() {
    let first = BlindedMessages::random(Amount::from_sat(u64::MAX)).unwrap();
    let second = BlindedMessages::random(Amount::from_sat(u64::MAX)).unwrap();
    let mut secrets = HashSet::new();
    let mut rs = HashSet::new();
    let mut points = HashSet::new();
    for outputs in [&first, &second] {
        for secret in &outputs.secrets {
            assert!(secrets.insert(secret.clone()));
        }
        for r in &outputs.rs {
            assert!(rs.insert(r.to_bytes()));
        }
        for message in &outputs.blinded_messages {
            assert!(points.insert(message.b.to_bytes()));
        }
    }
    assert_eq!(secrets.len(), 128);
    assert_eq!(rs.len(), 128);
    assert_eq!(points.len(), 128);
}

#[test]
fn generated_secrets_are_32_bytes_in_hex() {
    let outputs = BlindedMessages::random(Amount::from_sat(255)).unwrap();
    for secret in &outputs.secrets {
        assert_eq!(secret.len(), 64);
        assert!(secret
            .chars()
            .all(|c| c.is_ascii_digit() || ('a'..='f').contains(&c)));
    }
    for r in &outputs.rs {
        assert_eq!(r.bytes.len(), 32);
        assert!(cashu::nuts::nut01::SecretKey::from_slice(&r.bytes).is_ok());
    }
}

#[test]
fn each_message_is_its_secret_blinded_with_its_factor() {
    let outputs = BlindedMessages::random(Amount::from_sat(21)).unwrap();
    for i in 0..outputs.blinded_messages.len() {
        let expected = blinded_by_hand(&outputs.secrets[i], &outputs.rs[i].bytes);
        assert_eq!(outputs.blinded_messages[i].b.bytes, expected);
        assert_eq!(expected.len(), 33);
        assert_ne!(expected, outputs.secrets[i].as_bytes().to_vec());
        assert_ne!(expected[1..].to_vec(), outputs.rs[i].bytes);
    }
    let blank = BlindedMessages::blank(Amount::from_sat(5)).unwrap();
    for i in 0..blank.blinded_messages.len() {
        let expected = blinded_by_hand(&blank.secrets[i], &blank.rs[i].bytes);
        assert_eq!(blank.blinded_messages[i].b.bytes, expected);
    }
}

#[test]
fn points_come_in_their_compressed_encoding() {
    let outputs = BlindedMessages::random(Amount::from_sat(u64::MAX)).unwrap();
    assert_eq!(outputs.blinded_messages.len(), 64);
    for message in &outputs.blinded_messages {
        assert_eq!(message.b.bytes.len(), 33);
        assert!(message.b.bytes[0] == 2 || message.b.bytes[0] == 3);
    }
    let blank = BlindedMessages::blank(Amount::from_sat(1000)).unwrap();
    for message in &blank.blinded_messages {
        assert_eq!(message.b.bytes.len(), 33);
    }
    let (promises, rs, secrets, keys) = one_promise();
    let proofs = construct_proofs(promises, rs, secrets, &keys).unwrap();
    assert_eq!(proofs[0].c.bytes.len(), 33);
}

#[test]
fn push_output_adds_one_output() {
    let mut outputs = BlindedMessages::new();
    let b = PublicKey::from_bytes(unhex(
        "033b1a9737a40cc3fd9b6af4b723632b76a67a36782596304612a6c2bfb5197e6d",
    ));
    let r = SecretKey::from_bytes(scalar(7));
    let res = outputs.push_output(
        Amount::from_sat(4),
        String::from("secret"),
        r.clone(),
        Some(b.clone()),
    );
    assert_eq!(res, Ok(()));
    assert_eq!(
        outputs.blinded_messages,
        vec![BlindedMessage { amount: Amount::from_sat(4), b }]
    );
    assert_eq!(outputs.secrets, vec![String::from("secret")]);
    assert_eq!(outputs.rs, vec![r]);
    assert_eq!(outputs.amounts, vec![Amount::from_sat(4)]);
}

#[test]
fn push_output_fails_where_the_blinding_failed() {
    let mut outputs = BlindedMessages::random(Amount::from_sat(3)).unwrap();
    let before = BlindedMessages {
        blinded_messages: outputs.blinded_messages(),
        secrets: outputs.secrets(),
        rs: outputs.rs(),
        amounts: outputs.amounts(),
    };
    let res = outputs.push_output(
        Amount::from_sat(4),
        String::from("secret"),
        SecretKey::from_bytes(scalar(7)),
        None,
    );
    assert_eq!(res, Err(Error::BlindingError));
    assert_eq!(outputs, before);
}

#[test]
fn push_output_refuses_what_is_in_use() {
    let b = PublicKey::from_bytes(unhex(
        "033b1a9737a40cc3fd9b6af4b723632b76a67a36782596304612a6c2bfb5197e6d",
    ));
    let mut outputs = BlindedMessages::new();
    let res = outputs.push_output(
        Amount::from_sat(1),
        String::from("one"),
        SecretKey::from_bytes(scalar(1)),
        Some(b.clone()),
    );
    assert_eq!(res, Ok(()));
    let before = BlindedMessages {
        blinded_messages: outputs.blinded_messages(),
        secrets: outputs.secrets(),
        rs: outputs.rs(),
        amounts: outputs.amounts(),
    };

    let res = outputs.push_output(
        Amount::from_sat(2),
        String::from("one"),
        SecretKey::from_bytes(scalar(2)),
        Some(b.clone()),
    );
    assert_eq!(res, Err(Error::ReusedSecret));
    assert_eq!(outputs, before);

    let res = outputs.push_output(
        Amount::from_sat(2),
        String::from("two"),
        SecretKey::from_bytes(scalar(1)),
        Some(b.clone()),
    );
    assert_eq!(res, Err(Error::ReusedSecret));
    assert_eq!(outputs, before);

    let res = outputs.push_output(
        Amount::from_sat(2),
        String::from("one"),
        SecretKey::from_bytes(scalar(2)),
        None,
    );
    assert_eq!(res, Err(Error::ReusedSecret));
    assert_eq!(outputs, before);

    let res = outputs.push_output(
        Amount::from_sat(2),
        String::from("two"),
        SecretKey::from_bytes(scalar(2)),
        Some(b),
    );
    assert_eq!(res, Ok(()));
    assert_eq!(outputs.secrets, vec!["one", "two"]);
}

#[test]
fn bundle_knows_what_it_holds() {
    let outputs = BlindedMessages::random(Amount::from_sat(7)).unwrap();
    for secret in &outputs.secrets {
        assert!(outputs.holds_secret(secret));
    }
    for r in &outputs.rs {
        assert!(outputs.holds_blinding_factor(r));
    }
    assert!(!outputs.holds_secret(&String::from("other")));
    assert!(!outputs.holds_blinding_factor(&SecretKey::from_bytes(scalar(9))));
    assert!(!BlindedMessages::new().holds_secret(&outputs.secrets[0]));

    assert!(outputs.avoids(&Vec::new()));
    assert!(outputs.avoids(&vec![String::from("a"), String::from("b")]));
    assert!(!outputs.avoids(&vec![String::from("a"), outputs.secrets[2].clone()]));
    assert!(BlindedMessages::new().avoids(&outputs.secrets));

    let other = BlindedMessages::random(Amount::from_sat(3)).unwrap();
    assert!(outputs.apart_from(&other));
    assert!(other.apart_from(&outputs));
    assert!(!outputs.apart_from(&outputs));
    assert!(outputs.apart_from(&BlindedMessages::new()));
    let mut shared = BlindedMessages::new();
    shared
        .push_output(
            Amount::from_sat(1),
            String::from("other"),
            outputs.rs[1].clone(),
            Some(outputs.blinded_messages[1].b.clone()),
        )
        .unwrap();
    assert!(!outputs.apart_from(&shared));
    assert!(!shared.apart_from(&outputs));
}

#[test]
fn same_bytes_compares_the_encodings() {
    let one = SecretKey::from_bytes(scalar(1));
    assert!(one.same_bytes(&SecretKey::from_bytes(scalar(1))));
    assert!(!one.same_bytes(&SecretKey::from_bytes(scalar(2))));
    assert!(!one.same_bytes(&SecretKey::from_bytes(vec![0u8; 31])));
    assert!(!one.same_bytes(&SecretKey::from_bytes(Vec::new())));
    assert!(SecretKey::from_bytes(Vec::new()).same_bytes(&SecretKey::from_bytes(Vec::new())));
}

#[test]
fn getters_give_copies_of_the_four_vectors() {
    let outputs = BlindedMessages::random(Amount::from_sat(6)).unwrap();
    assert_eq!(outputs.blinded_messages(), outputs.blinded_messages);
    assert_eq!(outputs.secrets(), outputs.secrets);
    assert_eq!(outputs.rs(), outputs.rs);
    assert_eq!(outputs.amounts(), outputs.amounts);
    assert_eq!(sats(&outputs.amounts()), vec![2, 4]);
}

fn one_promise() -> (Vec<Promise>, Vec<SecretKey>, Vec<String>, MintKeys) {
    let promises = vec![Promise {
        id: String::from("oCWcdYrryTkR"),
        amount: Amount::from_sat(2),
        c: PublicKey::from_bytes(unhex(
            "02a9acc1e48c25eeeb9289b5031cc57da9fe72f3fe2861d264bdc074209b107ba2",
        )),
    }];
    let rs = vec![SecretKey::from_bytes(scalar(1))];
    let secrets = vec![String::from("test_message")];
    let mut keys = MintKeys::new();
    keys.insert(
        2,
        PublicKey::from_bytes(unhex(
            "020000000000000000000000000000000000000000000000000000000000000001",
        )),
    );
    (promises, rs, secrets, keys)
}

#[test]
fn construct_proofs_unblinds_with_the_key_of_the_amount() {
    let (promises, rs, secrets, keys) = one_promise();
    let proofs = construct_proofs(promises, rs, secrets, &keys).unwrap();
    assert_eq!(
        proofs,
        vec![Proof {
            id: String::from("oCWcdYrryTkR"),
            amount: Amount::from_sat(2),
            secret: String::from("test_message"),
            c: PublicKey::from_bytes(unhex(
                "03c724d7e6a5443b39ac8acf11f40420adc4f99a02e7cc1b57703d9391f6d129cd",
            )),
        }]
    );
}

#[test]
fn construct_proofs_of_nothing_is_nothing() {
    let keys = MintKeys::new();
    let proofs = construct_proofs(Vec::new(), Vec::new(), Vec::new(), &keys);
    assert_eq!(proofs, Ok(Vec::new()));
}

#[test]
fn construct_proofs_refuses_a_wrong_count() {
    let (promises, _, secrets, keys) = one_promise();
    let res = construct_proofs(promises, Vec::new(), secrets, &keys);
    assert_eq!(res, Err(Error::ProofReconstructionError));

    let (promises, rs, _, keys) = one_promise();
    let res = construct_proofs(promises, rs, Vec::new(), &keys);
    assert_eq!(res, Err(Error::ProofReconstructionError));

    let (_, rs, secrets, keys) = one_promise();
    let res = construct_proofs(Vec::new(), rs, secrets, &keys);
    assert_eq!(res, Err(Error::ProofReconstructionError));
}

#[test]
fn construct_proofs_refuses_an_amount_without_a_key() {
    let (mut promises, rs, secrets, keys) = one_promise();
    promises[0].amount = Amount::from_sat(4);
    let res = construct_proofs(promises, rs, secrets, &keys);
    assert_eq!(res, Err(Error::ProofReconstructionError));
}

#[test]
fn construct_proofs_refuses_what_cannot_be_unblinded() {
    let (mut promises, rs, secrets, keys) = one_promise();
    promises[0].c = PublicKey::from_bytes(vec![2u8; 5]);
    let res = construct_proofs(promises, rs, secrets, &keys);
    assert_eq!(res, Err(Error::ProofReconstructionError));

    let (promises, _, secrets, keys) = one_promise();
    let rs = vec![SecretKey::from_bytes(vec![0u8; 32])];
    let res = construct_proofs(promises, rs, secrets, &keys);
    assert_eq!(res, Err(Error::ProofReconstructionError));

    let (promises, rs, secrets, _) = one_promise();
    let mut keys = MintKeys::new();
    keys.insert(2, PublicKey::from_bytes(Vec::new()));
    let res = construct_proofs(promises, rs, secrets, &keys);
    assert_eq!(res, Err(Error::ProofReconstructionError));
}

#[test]
fn from_unblinded_takes_keyset_and_amount_from_the_promise() {
    let (promises, _, _, _) = one_promise();
    let c = PublicKey::from_bytes(unhex(
        "03c724d7e6a5443b39ac8acf11f40420adc4f99a02e7cc1b57703d9391f6d129cd",
    ));
    let proof = Proof::from_unblinded(&promises[0], String::from("s"), Some(c.clone()));
    assert_eq!(
        proof,
        Ok(Proof {
            id: String::from("oCWcdYrryTkR"),
            amount: Amount::from_sat(2),
            secret: String::from("s"),
            c,
        })
    );
    let proof = Proof::from_unblinded(&promises[0], String::from("s"), None);
    assert_eq!(proof, Err(Error::ProofReconstructionError));
}

#[test]
fn mint_keys_hold_one_key_for_each_amount() {
    let mut keys = MintKeys::new();
    assert!(keys.amount_key(1).is_none());
    keys.insert(1, PublicKey::from_bytes(vec![2u8; 33]));
    keys.insert(2, PublicKey::from_bytes(vec![3u8; 33]));
    assert_eq!(keys.amount_key(1), Some(&PublicKey::from_bytes(vec![2u8; 33])));
    assert_eq!(keys.amount_key(2), Some(&PublicKey::from_bytes(vec![3u8; 33])));
    assert!(keys.amount_key(4).is_none());
    keys.insert(1, PublicKey::from_bytes(vec![4u8; 33]));
    assert_eq!(keys.amount_key(1), Some(&PublicKey::from_bytes(vec![4u8; 33])));
}
