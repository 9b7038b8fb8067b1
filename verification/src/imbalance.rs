//! Ephemeral, move-only imbalance values: a surplus or deficit of supply
//! that has not yet been folded into a token's recorded issuance.
//!
//! An imbalance must be consumed exactly once: discharged when zero
//! (`drop_zero` / `try_drop`), partitioned (`split`), combined (`merge`,
//! `subsume`), netted against the opposite polarity (`offset`), or folded
//! into the issuance counter (`reconcile`). The explicit `reconcile` call
//! plays the part of the scope-exit backstop: it is how every surviving
//! imbalance is meant to end.

use vstd::prelude::*;

use crate::Pallet;
use crate::model::ImbView;
use crate::model::conserved;
use crate::model::issuance_in;
use crate::model::min_u128;
use crate::model::sat_add_u128;
use crate::model::sat_sub_u128;
use crate::model::spec_settle_negative;
use crate::model::spec_settle_positive;
use crate::model::token_sum;

verus! {

/// The outcome of netting two imbalances of opposite polarity: a remainder
/// of the first operand's polarity, a remainder of the second's, or nothing
/// when they cancel exactly.
#[derive(Debug)]
pub enum SameOrOther<A, B> {
    Same(A),
    Other(B),
    Neither,
}

/// An imbalance of this polarity and its opposite, combined as a signed
/// delta.
#[derive(Debug)]
pub enum SignedImbalance {
    Positive(PositiveImbalance),
    Negative(NegativeImbalance),
}

/// A surplus: funds were created without any equal and opposite accounting,
/// and the token's issuance must eventually grow by the held amount.
#[must_use]
#[derive(Debug)]
pub struct PositiveImbalance {
    amount: u128,
    token: u64,
}

/// A deficit: funds were destroyed without any equal and opposite
/// accounting, and the token's issuance must eventually shrink by the held
/// amount.
#[must_use]
#[derive(Debug)]
pub struct NegativeImbalance {
    amount: u128,
    token: u64,
}

impl View for PositiveImbalance {
    type V = ImbView;

    closed spec fn view(&self) -> ImbView {
        ImbView { amount: self.amount, token: self.token }
    }
}

impl View for NegativeImbalance {
    type V = ImbView;

    closed spec fn view(&self) -> ImbView {
        ImbView { amount: self.amount, token: self.token }
    }
}

impl PositiveImbalance {
    /// Creates a surplus of `amount` for `token`. A zero amount is a legal
    /// no-op sentinel.
    pub fn new(amount: u128, token: u64) -> (r: Self)
        ensures
            r@ == (ImbView { amount, token }),
    {
        PositiveImbalance { amount, token }
    }

    /// Reads the held amount without consuming the value.
    pub fn peek(&self) -> (r: u128)
        ensures
            r == self@.amount,
    {
        self.amount
    }

    /// Discharges the value with no effect iff it holds nothing; otherwise
    /// hands it back, forcing the caller to handle the non-zero case.
    pub fn drop_zero(self) -> (r: Result<(), Self>)
        ensures
            match r {
                Ok(_) => self@.amount == 0,
                Err(s) => s == self && self@.amount != 0,
            },
    {
        if self.amount == 0 {
            Ok(())
        } else {
            Err(self)
        }
    }

    /// Same contract as `drop_zero`.
    pub fn try_drop(self) -> (r: Result<(), Self>)
        ensures
            match r {
                Ok(_) => self@.amount == 0,
                Err(s) => s == self && self@.amount != 0,
            },
    {
        self.drop_zero()
    }

    /// Partitions the value into `(min(amount, total), remainder)`, both of
    /// the same polarity and token; the total is conserved exactly.
    pub fn split(self, amount: u128) -> (r: (Self, Self))
        ensures
            r.0@.amount == min_u128(self@.amount, amount),
            r.1@.amount == self@.amount - min_u128(self@.amount, amount),
            r.0@.token == self@.token,
            r.1@.token == self@.token,
    {
        let first = if self.amount <= amount {
            self.amount
        } else {
            amount
        };
        let second = self.amount - first;
        let token = self.token;
        (PositiveImbalance::new(first, token), PositiveImbalance::new(second, token))
    }

    /// Combines two same-polarity values; the amounts add with saturation
    /// and the consumed operand's obligation is owned by the result.
    pub fn merge(self, other: Self) -> (r: Self)
        requires
            self@.token == other@.token,
        ensures
            r@.amount == sat_add_u128(self@.amount, other@.amount),
            r@.token == self@.token,
    {
        let amount = self.amount.saturating_add(other.amount);
        PositiveImbalance::new(amount, self.token)
    }

    /// In-place `merge`.
    pub fn subsume(&mut self, other: Self)
        requires
            old(self)@.token == other@.token,
        ensures
            final(self)@.amount == sat_add_u128(old(self)@.amount, other@.amount),
            final(self)@.token == old(self)@.token,
    {
        self.amount = self.amount.saturating_add(other.amount);
    }

    /// Nets a surplus against a deficit of the same token: a surplus
    /// remainder if this side is larger, a deficit remainder if the other
    /// side is, and nothing if they cancel exactly.
    pub fn offset(self, other: NegativeImbalance) -> (r: SameOrOther<
        PositiveImbalance,
        NegativeImbalance,
    >)
        requires
            self@.token == other@.token,
        ensures
            self@.amount > other@.amount ==> (r matches SameOrOther::Same(p) && p@ == (ImbView {
                amount: (self@.amount - other@.amount) as u128,
                token: self@.token,
            })),
            self@.amount < other@.amount ==> (r matches SameOrOther::Other(n) && n@ == (ImbView {
                amount: (other@.amount - self@.amount) as u128,
                token: self@.token,
            })),
            self@.amount == other@.amount ==> (r matches SameOrOther::Neither),
    {
        let a = self.amount;
        let b = other.amount;
        let token = self.token;
        if a > b {
            SameOrOther::Same(PositiveImbalance::new(a - b, token))
        } else if b > a {
            SameOrOther::Other(NegativeImbalance::new(b - a, token))
        } else {
            SameOrOther::Neither
        }
    }

    /// Folds the surplus into its token's recorded issuance (saturating),
    /// consuming the value. This is the explicit form of the scope-exit
    /// reconciliation that squares up the total issuance: when this value is
    /// the store's only outstanding discrepancy — its token's balance sum
    /// exceeds the recorded issuance by exactly the held amount — the
    /// discharge restores conservation, provided the issuance write does not
    /// saturate.
    pub fn reconcile(self, ledger: &mut Pallet)
        ensures
            final(ledger)@ == spec_settle_positive(old(ledger)@, self@.token, self@.amount),
            issuance_in(final(ledger)@.issuance, self@.token) == sat_add_u128(
                issuance_in(old(ledger)@.issuance, self@.token),
                self@.amount,
            ),
            forall|t: u64| t != self@.token ==> issuance_in(final(ledger)@.issuance, t)
                == issuance_in(old(ledger)@.issuance, t),
            final(ledger)@.balances == old(ledger)@.balances,
            final(ledger)@.last_token_id == old(ledger)@.last_token_id,
            final(ledger)@.events == old(ledger)@.events,
            (issuance_in(old(ledger)@.issuance, self@.token) + self@.amount <= u128::MAX && (
            forall|t: u64| #[trigger] token_sum(old(ledger)@.balances, t) == issuance_in(
                old(ledger)@.issuance,
                t,
            ) + if t == self@.token {
                self@.amount as int
            } else {
                0
            })) ==> conserved(final(ledger)@),
    {
        let cur = ledger.get_issuance(self.token);
        ledger.set_issuance(self.token, cur.saturating_add(self.amount));
        proof {
            assert forall|t: u64|
                issuance_in(ledger@.issuance, t) == if t == self@.token {
                    sat_add_u128(issuance_in(old(ledger)@.issuance, self@.token), self@.amount)
                } else {
                    issuance_in(old(ledger)@.issuance, t)
                } by {
                crate::model::lemma_issuance_in_write(
                    old(ledger)@.issuance,
                    self@.token,
                    sat_add_u128(issuance_in(old(ledger)@.issuance, self@.token), self@.amount),
                    t,
                );
            }
            if issuance_in(old(ledger)@.issuance, self@.token) + self@.amount <= u128::MAX && (
            forall|t: u64| #[trigger] token_sum(old(ledger)@.balances, t) == issuance_in(
                old(ledger)@.issuance,
                t,
            ) + if t == self@.token {
                self@.amount as int
            } else {
                0
            }) {
                assert forall|t: u64|
                    issuance_in(ledger@.issuance, t) == #[trigger] token_sum(
                        ledger@.balances,
                        t,
                    ) by {
                    assert(token_sum(old(ledger)@.balances, t) == issuance_in(
                        old(ledger)@.issuance,
                        t,
                    ) + if t == self@.token {
                        self@.amount as int
                    } else {
                        0
                    });
                }
            }
        }
    }
}

impl NegativeImbalance {
    /// Creates a deficit of `amount` for `token`. A zero amount is a legal
    /// no-op sentinel.
    pub fn new(amount: u128, token: u64) -> (r: Self)
        ensures
            r@ == (ImbView { amount, token }),
    {
        NegativeImbalance { amount, token }
    }

    /// Reads the held amount without consuming the value.
    pub fn peek(&self) -> (r: u128)
        ensures
            r == self@.amount,
    {
        self.amount
    }

    /// Discharges the value with no effect iff it holds nothing; otherwise
    /// hands it back, forcing the caller to handle the non-zero case.
    pub fn drop_zero(self) -> (r: Result<(), Self>)
        ensures
            match r {
                Ok(_) => self@.amount == 0,
                Err(s) => s == self && self@.amount != 0,
            },
    {
        if self.amount == 0 {
            Ok(())
        } else {
            Err(self)
        }
    }

    /// Same contract as `drop_zero`.
    pub fn try_drop(self) -> (r: Result<(), Self>)
        ensures
            match r {
                Ok(_) => self@.amount == 0,
                Err(s) => s == self && self@.amount != 0,
            },
    {
        self.drop_zero()
    }

    /// Partitions the value into `(min(amount, total), remainder)`, both of
    /// the same polarity and token; the total is conserved exactly.
    pub fn split(self, amount: u128) -> (r: (Self, Self))
        ensures
            r.0@.amount == min_u128(self@.amount, amount),
            r.1@.amount == self@.amount - min_u128(self@.amount, amount),
            r.0@.token == self@.token,
            r.1@.token == self@.token,
    {
        let first = if self.amount <= amount {
            self.amount
        } else {
            amount
        };
        let second = self.amount - first;
        let token = self.token;
        (NegativeImbalance::new(first, token), NegativeImbalance::new(second, token))
    }

    /// Combines two same-polarity values; the amounts add with saturation
    /// and the consumed operand's obligation is owned by the result.
    pub fn merge(self, other: Self) -> (r: Self)
        requires
            self@.token == other@.token,
        ensures
            r@.amount == sat_add_u128(self@.amount, other@.amount),
            r@.token == self@.token,
    {
        let amount = self.amount.saturating_add(other.amount);
        NegativeImbalance::new(amount, self.token)
    }

    /// In-place `merge`.
    pub fn subsume(&mut self, other: Self)
        requires
            old(self)@.token == other@.token,
        ensures
            final(self)@.amount == sat_add_u128(old(self)@.amount, other@.amount),
            final(self)@.token == old(self)@.token,
    {
        self.amount = self.amount.saturating_add(other.amount);
    }

    /// Nets a deficit against a surplus of the same token: a deficit
    /// remainder if this side is larger, a surplus remainder if the other
    /// side is, and nothing if they cancel exactly.
    pub fn offset(self, other: PositiveImbalance) -> (r: SameOrOther<
        NegativeImbalance,
        PositiveImbalance,
    >)
        requires
            self@.token == other@.token,
        ensures
            self@.amount > other@.amount ==> (r matches SameOrOther::Same(n) && n@ == (ImbView {
                amount: (self@.amount - other@.amount) as u128,
                token: self@.token,
            })),
            self@.amount < other@.amount ==> (r matches SameOrOther::Other(p) && p@ == (ImbView {
                amount: (other@.amount - self@.amount) as u128,
                token: self@.token,
            })),
            self@.amount == other@.amount ==> (r matches SameOrOther::Neither),
    {
        let a = self.amount;
        let b = other.amount;
        let token = self.token;
        if a > b {
            SameOrOther::Same(NegativeImbalance::new(a - b, token))
        } else if b > a {
            SameOrOther::Other(PositiveImbalance::new(b - a, token))
        } else {
            SameOrOther::Neither
        }
    }

    /// Folds the deficit into its token's recorded issuance (clamped at
    /// zero), consuming the value. This is the explicit form of the
    /// scope-exit reconciliation that squares up the total issuance: when
    /// this value is the store's only outstanding discrepancy — its token's
    /// balance sum falls short of the recorded issuance by exactly the held
    /// amount — the discharge restores conservation.
    pub fn reconcile(self, ledger: &mut Pallet)
        ensures
            final(ledger)@ == spec_settle_negative(old(ledger)@, self@.token, self@.amount),
            issuance_in(final(ledger)@.issuance, self@.token) == sat_sub_u128(
                issuance_in(old(ledger)@.issuance, self@.token),
                self@.amount,
            ),
            forall|t: u64| t != self@.token ==> issuance_in(final(ledger)@.issuance, t)
                == issuance_in(old(ledger)@.issuance, t),
            final(ledger)@.balances == old(ledger)@.balances,
            final(ledger)@.last_token_id == old(ledger)@.last_token_id,
            final(ledger)@.events == old(ledger)@.events,
            (forall|t: u64| #[trigger] token_sum(old(ledger)@.balances, t) + (if t == self@.token {
                self@.amount as int
            } else {
                0
            }) == issuance_in(old(ledger)@.issuance, t)) ==> conserved(final(ledger)@),
    {
        let cur = ledger.get_issuance(self.token);
        ledger.set_issuance(self.token, cur.saturating_sub(self.amount));
        proof {
            assert forall|t: u64|
                issuance_in(ledger@.issuance, t) == if t == self@.token {
                    sat_sub_u128(issuance_in(old(ledger)@.issuance, self@.token), self@.amount)
                } else {
                    issuance_in(old(ledger)@.issuance, t)
                } by {
                crate::model::lemma_issuance_in_write(
                    old(ledger)@.issuance,
                    self@.token,
                    sat_sub_u128(issuance_in(old(ledger)@.issuance, self@.token), self@.amount),
                    t,
                );
            }
            if forall|t: u64| #[trigger] token_sum(old(ledger)@.balances, t) + (if t
                == self@.token {
                self@.amount as int
            } else {
                0
            }) == issuance_in(old(ledger)@.issuance, t) {
                assert forall|t: u64|
                    issuance_in(ledger@.issuance, t) == #[trigger] token_sum(
                        ledger@.balances,
                        t,
                    ) by {
                    crate::model::lemma_token_sum_nonneg(old(ledger)@.balances, t);
                    assert(token_sum(old(ledger)@.balances, t) + (if t == self@.token {
                        self@.amount as int
                    } else {
                        0
                    }) == issuance_in(old(ledger)@.issuance, t));
                }
            }
        }
    }
}

/// Split/merge identity: partitioning an imbalance at any point `k` within
/// its amount and recombining the two parts reconstitutes the original
/// amount exactly.
pub proof fn lemma_split_merge_identity(i: ImbView, k: u128)
    requires
        k <= i.amount,
    ensures
        ({
            let first = min_u128(i.amount, k);
            let second = (i.amount - first) as u128;
            sat_add_u128(first, second) == i.amount
        }),
{
}

} // verus!
