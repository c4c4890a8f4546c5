use cashu_rs::amount::Amount;
use cashu_rs::blinded_messages::BlindedMessages;

fn sats(parts: &[Amount]) -> Vec<u64> {
    parts.iter().map(|part| part.to_sat()).collect()
}

#[test]
fn from_sat_and_to_sat_agree() {
    assert_eq!(Amount::from_sat(21).to_sat(), 21);
    assert_eq!(Amount::zero().to_sat(), 0);
    assert_eq!(Amount::default(), Amount::zero());
    assert_eq!(Amount::from_sat(u64::MAX).to_sat(), u64::MAX);
}

#[test]
fn checked_add_gives_the_sum() {
    let sum = Amount::from_sat(5).checked_add(Amount::from_sat(8));
    assert_eq!(sum, Some(Amount::from_sat(13)));
    let sum = Amount::from_sat(u64::MAX - 1).checked_add(Amount::from_sat(1));
    assert_eq!(sum, Some(Amount::from_sat(u64::MAX)));
}

#[test]
fn checked_add_refuses_what_does_not_fit() {
    assert_eq!(Amount::from_sat(u64::MAX).checked_add(Amount::from_sat(1)), None);
    assert_eq!(
        Amount::from_sat(1 << 63).checked_add(Amount::from_sat(1 << 63)),
        None
    );
}

#[test]
fn checked_sub_gives_the_difference() {
    let rest = Amount::from_sat(5).checked_sub(Amount::from_sat(3));
    assert_eq!(rest, Some(Amount::from_sat(2)));
    let rest = Amount::from_sat(5).checked_sub(Amount::from_sat(5));
    assert_eq!(rest, Some(Amount::zero()));
}

#[test]
fn checked_sub_refuses_a_larger_subtrahend() {
    assert_eq!(Amount::from_sat(3).checked_sub(Amount::from_sat(5)), None);
    assert_eq!(Amount::zero().checked_sub(Amount::from_sat(1)), None);
}

#[test]
fn amounts_are_ordered_by_value() {
    assert!(Amount::from_sat(1) < Amount::from_sat(2));
    assert!(Amount::from_sat(2) > Amount::from_sat(1));
    assert!(Amount::from_sat(2) >= Amount::from_sat(2));
}

#[test]
fn split_gives_the_powers_of_two_smallest_first() {
    assert_eq!(sats(&Amount::from_sat(13).split()), vec![1, 4, 8]);
    assert_eq!(sats(&Amount::from_sat(21).split()), vec![1, 4, 16]);
    assert_eq!(sats(&Amount::from_sat(3).split()), vec![1, 2]);
    assert_eq!(sats(&Amount::from_sat(2).split()), vec![2]);
    assert_eq!(sats(&Amount::from_sat(1).split()), vec![1]);
    assert_eq!(sats(&Amount::from_sat(64).split()), vec![64]);
    assert_eq!(
        sats(&Amount::from_sat(255).split()),
        vec![1, 2, 4, 8, 16, 32, 64, 128]
    );
}

#[test]
fn split_of_zero_is_empty() {
    assert_eq!(sats(&Amount::zero().split()), Vec::<u64>::new());
}

#[test]
fn split_of_the_largest_amount_has_every_power() {
    let parts = sats(&Amount::from_sat(u64::MAX).split());
    assert_eq!(parts.len(), 64);
    for (bit, part) in parts.iter().enumerate() {
        assert_eq!(*part, 1u64 << bit);
    }
    assert_eq!(sats(&Amount::from_sat(1 << 63).split()), vec![1 << 63]);
}

#[test]
fn split_adds_up_to_the_amount() {
    for value in [0u64, 1, 2, 3, 5, 7, 100, 1000, 65535, 65536, 123_456_789, u64::MAX] {
        let parts = sats(&Amount::from_sat(value).split());
        let mut total: u128 = 0;
        for part in &parts {
            assert!(part.is_power_of_two());
            total += *part as u128;
        }
        assert_eq!(total, value as u128);
        for pair in parts.windows(2) {
            assert!(pair[0] < pair[1]);
        }
    }
}

#[test]
fn blank_outputs_are_counted_by_the_logarithm() {
    let cases: [(u64, usize); 12] = [
        (0, 1),
        (1, 1),
        (2, 1),
        (3, 2),
        (4, 2),
        (5, 3),
        (8, 3),
        (9, 4),
        (1000, 10),
        (1024, 10),
        (1025, 11),
        (u64::MAX, 64),
    ];
    for (fee_reserve, count) in cases {
        let outputs = BlindedMessages::blank(Amount::from_sat(fee_reserve)).unwrap();
        assert_eq!(outputs.blinded_messages.len(), count);
        assert_eq!(outputs.secrets.len(), count);
        assert_eq!(outputs.rs.len(), count);
        assert_eq!(sats(&outputs.amounts), vec![0; count]);
        for message in &outputs.blinded_messages {
            assert_eq!(message.amount, Amount::zero());
        }
    }
}

#[test]
fn blank_count_is_the_logarithm_rounded_up() {
    let cases: [(u64, u64); 14] = [
        (0, 1),
        (1, 1),
        (2, 1),
        (3, 2),
        (4, 2),
        (5, 3),
        (7, 3),
        (8, 3),
        (9, 4),
        (1 << 32, 32),
        ((1 << 32) + 1, 33),
        (1 << 63, 63),
        ((1 << 63) + 1, 64),
        (u64::MAX, 64),
    ];
    for (fee_reserve, count) in cases {
        assert_eq!(Amount::from_sat(fee_reserve).blank_count(), count);
    }
}

#[test]
fn blank_outputs_suffice_for_any_change_up_to_the_reserve() {
    for fee_reserve in 0u64..200 {
        let count = Amount::from_sat(fee_reserve).blank_count();
        assert!(count >= 1);
        for change in 0..=fee_reserve {
            assert!(Amount::from_sat(change).split().len() as u64 <= count);
        }
    }
}
