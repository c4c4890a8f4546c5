//! Amounts in the smallest unit of the currency, and their decomposition into
//! the denominations that a mint signs.

use crate::views::{lemma_sum_concat, lemma_sum_push, sum, views};
use vstd::arithmetic::power2::{lemma_pow2_strictly_increases, lemma_pow2_unfold, pow2};
use vstd::prelude::*;

verus! {

/// A non-negative value in the smallest unit of the currency.
#[derive(Clone, Copy, Debug, PartialEq, Eq, Structural, PartialOrd, Ord, Hash)]
pub struct Amount {
    pub sat: u64,
}

impl View for Amount {
    type V = nat;

    open spec fn view(&self) -> nat {
        self.sat as nat
    }
}

impl Default for Amount {
    fn default() -> (res: Amount)
        ensures
            res@ == 0,
    {
        Amount { sat: 0 }
    }
}

/// The denominations of `n` in units of `unit`: for every bit that is set in
/// `n`, the unit doubled as often as the bit's position says, lowest bit first.
pub open spec fn binary_parts(n: nat, unit: nat) -> Seq<nat>
    decreases n,
{
    if n == 0 {
        Seq::empty()
    } else if n % 2 == 1 {
        seq![unit] + binary_parts(n / 2, 2 * unit)
    } else {
        binary_parts(n / 2, 2 * unit)
    }
}

/// The canonical denominations of `n`: the powers of two that add up to it,
/// smallest first.
pub open spec fn denominations(n: nat) -> Seq<nat> {
    binary_parts(n, 1)
}

/// Whether `n` is a power of two.
pub open spec fn is_denomination(n: nat) -> bool {
    exists|e: nat| n == pow2(e)
}

/// The least `k` with `2^k >= n`.
pub open spec fn ceil_log2(n: nat) -> nat
    decreases n,
{
    if n <= 1 {
        0
    } else {
        1 + ceil_log2((n + 1) / 2)
    }
}

/// The number of blank outputs that cover an overpayment of at most
/// `fee_reserve`: the base-two logarithm of the reserve, rounded up, and at
/// least one.
pub open spec fn blank_count(fee_reserve: nat) -> nat {
    if ceil_log2(fee_reserve) == 0 {
        1
    } else {
        ceil_log2(fee_reserve)
    }
}

/// The denominations of a value add up to it.
pub proof fn lemma_binary_parts_sum(n: nat, unit: nat)
    ensures
        sum(binary_parts(n, unit)) == n * unit,
    decreases n,
{
    if n == 0 {
    } else {
        lemma_binary_parts_sum(n / 2, 2 * unit);
        assert((n / 2) * (2 * unit) == 2 * (n / 2) * unit) by (nonlinear_arith);
        if n % 2 == 1 {
            lemma_sum_concat(seq![unit], binary_parts(n / 2, 2 * unit));
            assert(seq![unit] =~= Seq::<nat>::empty().push(unit));
            lemma_sum_push(Seq::<nat>::empty(), unit);
            assert(n * unit == unit + 2 * (n / 2) * unit) by (nonlinear_arith)
                requires
                    n % 2 == 1,
            ;
        } else {
            assert(n * unit == 2 * (n / 2) * unit) by (nonlinear_arith)
                requires
                    n % 2 == 0,
            ;
        }
    }
}

/// The denominations of a value in units of a power of two are powers of two,
/// none below the unit, and each is larger than the one before it.
pub proof fn lemma_binary_parts_shape(n: nat, e: nat)
    ensures
        forall|i: int|
            0 <= i < binary_parts(n, pow2(e)).len() ==> {
                &&& is_denomination(#[trigger] binary_parts(n, pow2(e))[i])
                &&& binary_parts(n, pow2(e))[i] >= pow2(e)
            },
        forall|i: int, j: int|
            0 <= i < j < binary_parts(n, pow2(e)).len() ==> binary_parts(n, pow2(e))[i]
                < binary_parts(n, pow2(e))[j],
    decreases n,
{
    let parts = binary_parts(n, pow2(e));
    if n != 0 {
        lemma_binary_parts_shape(n / 2, e + 1);
        lemma_pow2_unfold(e + 1);
        lemma_pow2_strictly_increases(e, e + 1);
        let rest = binary_parts(n / 2, pow2(e + 1));
        assert(rest == binary_parts(n / 2, 2 * pow2(e)));
        if n % 2 == 1 {
            assert(parts == seq![pow2(e)] + rest);
            assert forall|i: int| 0 <= i < parts.len() implies is_denomination(#[trigger] parts[i])
                && parts[i] >= pow2(e) by {
                if i > 0 {
                    assert(parts[i] == rest[i - 1]);
                }
            }
            assert forall|i: int, j: int| 0 <= i < j < parts.len() implies parts[i] < parts[j] by {
                assert(parts[j] == rest[j - 1]);
                if i > 0 {
                    assert(parts[i] == rest[i - 1]);
                }
            }
        }
    }
}

/// The denominations of a value are powers of two, each larger than the one
/// before it: no denomination occurs twice.
pub proof fn lemma_denominations_shape(n: nat)
    ensures
        forall|i: int|
            0 <= i < denominations(n).len() ==> is_denomination(#[trigger] denominations(n)[i]),
        forall|i: int, j: int|
            0 <= i < j < denominations(n).len() ==> denominations(n)[i] < denominations(n)[j],
{
    vstd::arithmetic::power2::lemma2_to64();
    lemma_binary_parts_shape(n, 0);
}

/// `ceil_log2` is the base-two logarithm, rounded up: two to that power
/// reaches `n`, and two to the power before it does not.
pub proof fn lemma_ceil_log2_bounds(n: nat)
    ensures
        n <= pow2(ceil_log2(n)),
        n > 1 ==> pow2((ceil_log2(n) - 1) as nat) < n,
    decreases n,
{
    vstd::arithmetic::power2::lemma2_to64();
    if n > 1 {
        let half = (n + 1) / 2;
        lemma_ceil_log2_bounds(half);
        lemma_pow2_unfold(ceil_log2(half) + 1);
        if half > 1 {
            lemma_pow2_unfold(ceil_log2(half));
        }
    }
}

/// A value below two to the power `k` has at most `k` denominations.
pub proof fn lemma_binary_parts_len(n: nat, unit: nat, k: nat)
    requires
        n < pow2(k),
    ensures
        binary_parts(n, unit).len() <= k,
    decreases n,
{
    vstd::arithmetic::power2::lemma2_to64();
    if n != 0 {
        assert(k >= 1);
        lemma_pow2_unfold(k);
        lemma_binary_parts_len(n / 2, 2 * unit, (k - 1) as nat);
    }
}

/// A power of two is its own single denomination.
pub proof fn lemma_binary_parts_of_power(k: nat, unit: nat)
    ensures
        binary_parts(pow2(k), unit).len() == 1,
    decreases k,
{
    vstd::arithmetic::power2::lemma2_to64();
    if k == 0 {
        assert(binary_parts(0, 2 * unit).len() == 0);
    } else {
        lemma_pow2_unfold(k);
        lemma_binary_parts_of_power((k - 1) as nat, 2 * unit);
    }
}

/// Blank outputs cover the change of an overpayment: there is at least one,
/// and any amount up to the fee reserve has no more denominations than there
/// are blank outputs for that reserve.
pub proof fn lemma_blank_count_covers(fee_reserve: nat, change: nat)
    requires
        change <= fee_reserve,
    ensures
        blank_count(fee_reserve) >= 1,
        denominations(change).len() <= blank_count(fee_reserve),
{
    lemma_ceil_log2_bounds(fee_reserve);
    let k = ceil_log2(fee_reserve);
    if change < pow2(k) {
        lemma_binary_parts_len(change, 1, k);
    } else {
        lemma_binary_parts_of_power(k, 1);
    }
}

impl Amount {
    /// The amount of no value.
    pub fn zero() -> (res: Amount)
        ensures
            res@ == 0,
    {
        Amount { sat: 0 }
    }

    /// The amount of `sat` units.
    pub fn from_sat(sat: u64) -> (res: Amount)
        ensures
            res@ == sat,
    {
        Amount { sat }
    }

    /// The number of units of the amount.
    pub fn to_sat(&self) -> (res: u64)
        ensures
            res == self@,
    {
        self.sat
    }

    /// The sum of two amounts, or `None` where it does not fit.
    pub fn checked_add(self, other: Amount) -> (res: Option<Amount>)
        ensures
            match res {
                Some(total) => total@ == self@ + other@,
                None => self@ + other@ > u64::MAX,
            },
    {
        match self.sat.checked_add(other.sat) {
            Some(sat) => Some(Amount { sat }),
            None => None,
        }
    }

    /// The difference of two amounts, or `None` where `other` is the larger.
    pub fn checked_sub(self, other: Amount) -> (res: Option<Amount>)
        ensures
            match res {
                Some(rest) => rest@ == self@ - other@,
                None => self@ < other@,
            },
    {
        match self.sat.checked_sub(other.sat) {
            Some(sat) => Some(Amount { sat }),
            None => None,
        }
    }

    /// The number of blank outputs that cover an overpayment of at most this
    /// amount.
    pub fn blank_count(&self) -> (count: u64)
        ensures
            count == blank_count(self@),
            count >= 1,
    {
        let mut rest: u64 = self.sat;
        let mut log: u64 = 0;
        while rest > 1
            invariant
                log + ceil_log2(rest as nat) == ceil_log2(self@),
                log + rest <= self.sat,
            decreases rest,
        {
            rest = rest / 2 + rest % 2;
            log = log + 1;
        }
        if log == 0 {
            1
        } else {
            log
        }
    }

    /// Splits the amount into its canonical denominations: the powers of two
    /// that add up to it, smallest first.
    pub fn split(&self) -> (parts: Vec<Amount>)
        ensures
            views(parts@) == denominations(self@),
            sum(views(parts@)) == self@,
    {
        proof {
            lemma_binary_parts_sum(self@, 1);
        }
        let mut parts: Vec<Amount> = Vec::new();
        let mut rest: u64 = self.sat;
        let mut unit: u64 = 1;
        proof {
            assert(views(parts@) =~= Seq::<nat>::empty());
            assert(views(parts@) + binary_parts(rest as nat, unit as nat) =~= denominations(
                self@,
            ));
        }
        while rest > 0
            invariant
                views(parts@) + binary_parts(rest as nat, unit as nat) == denominations(self@),
                rest > 0 ==> rest * unit <= u64::MAX,
            decreases rest,
        {
            let ghost before = views(parts@);
            let ghost old_rest = rest as nat;
            let ghost old_unit = unit as nat;
            if rest % 2 == 1 {
                parts.push(Amount { sat: unit });
                assert(views(parts@) =~= before + seq![old_unit]);
            }
            rest = rest / 2;
            proof {
                assert(views(parts@) + binary_parts(rest as nat, 2 * old_unit)
                    =~= before + binary_parts(old_rest, old_unit));
            }
            if rest > 0 {
                assert(2 * unit * rest <= u64::MAX) by (nonlinear_arith)
                    requires
                        rest == old_rest / 2,
                        old_rest * unit <= u64::MAX,
                ;
                assert(2 * unit <= u64::MAX) by (nonlinear_arith)
                    requires
                        2 * unit * rest <= u64::MAX,
                        rest > 0,
                ;
                unit = 2 * unit;
                assert(rest * unit <= u64::MAX) by (nonlinear_arith)
                    requires
                        unit == 2 * old_unit,
                        2 * old_unit * rest <= u64::MAX,
                ;
            } else {
                assert(binary_parts(0, 2 * old_unit) =~= binary_parts(0, unit as nat));
            }
        }
        proof {
            assert(views(parts@) + Seq::<nat>::empty() =~= views(parts@));
        }
        parts
    }
}

} // verus!
