//! A per-token currency adapter: the generic holder-of-value interface
//! (slash, withdraw, deposit, make-balance-be) projected onto one token of
//! the ledger.
//!
//! The token binding is an explicit configuration value held by the
//! constructed instance, and every operation takes the ledger store it acts
//! on as an argument.

use vstd::prelude::*;

use crate::Error;
use crate::Event;
use crate::Pallet;
use crate::imbalance::NegativeImbalance;
use crate::imbalance::PositiveImbalance;
use crate::imbalance::SignedImbalance;
use crate::model;
use crate::model::balance_in;
use crate::model::has_balance;
use crate::model::issuance_in;
use crate::model::sat_add_u128;
use crate::model::sat_sub_u128;
use crate::model::spec_currency_transfer;
use crate::model::write_balance;
use crate::model::write_issuance;

verus! {

/// The existence-requirement knob accepted by `Erc1155Token::transfer`.
/// It is part of the interface but currently inert: no path enforces it.
#[derive(Clone, Copy, Debug)]
pub enum ExistenceRequirement {
    KeepAlive,
    AllowDeath,
}

/// A currency over exactly one token of the ledger.
pub struct Erc1155Token {
    token: u64,
}

impl View for Erc1155Token {
    type V = u64;

    closed spec fn view(&self) -> u64 {
        self.token
    }
}

impl Erc1155Token {
    /// Binds a currency instance to `token`.
    pub fn new(token: u64) -> (r: Self)
        ensures
            r@ == token,
    {
        Erc1155Token { token }
    }

    /// The token this instance is bound to.
    pub fn get(&self) -> (r: u64)
        ensures
            r == self@,
    {
        self.token
    }

    /// The balance of `who` in the bound token.
    pub fn total_balance(&self, ledger: &Pallet, who: u64) -> (r: u128)
        ensures
            r == balance_in(ledger@.balances, who, self@),
    {
        ledger.get_balance(who, self.token)
    }

    /// Same as `total_balance`: this ledger has no reserved or locked part.
    pub fn free_balance(&self, ledger: &Pallet, who: u64) -> (r: u128)
        ensures
            r == balance_in(ledger@.balances, who, self@),
    {
        self.total_balance(ledger, who)
    }

    /// True iff `value >= balance(who)`. Note the direction of the
    /// comparison: a `value` at least as large as the whole balance answers
    /// true, not the intuitive "has at least `value` to lose".
    pub fn can_slash(&self, ledger: &Pallet, who: u64, value: u128) -> (r: bool)
        ensures
            r == (value >= balance_in(ledger@.balances, who, self@)),
    {
        let balance = ledger.get_balance(who, self.token);
        value >= balance
    }

    /// The recorded total issuance of the bound token.
    pub fn total_issuance(&self, ledger: &Pallet) -> (r: u128)
        ensures
            r == issuance_in(ledger@.issuance, self@),
    {
        ledger.get_issuance(self.token)
    }

    /// The minimum balance an account may hold: always zero here.
    pub fn minimum_balance(&self) -> (r: u128)
        ensures
            r == 0,
    {
        0
    }

    /// Contracts the supply: lowers the bound token's issuance by `amount`,
    /// clamped so it cannot fall below zero, touching no individual
    /// balance. Returns a surplus of the full `amount`, to be discharged by
    /// whoever absorbs the removed funds. A zero amount writes nothing.
    pub fn burn(&self, ledger: &mut Pallet, amount: u128) -> (r: PositiveImbalance)
        ensures
            r@.amount == amount,
            r@.token == self@,
            amount == 0 ==> final(ledger)@ == old(ledger)@,
            amount > 0 ==> final(ledger)@.issuance == write_issuance(
                old(ledger)@.issuance,
                self@,
                sat_sub_u128(issuance_in(old(ledger)@.issuance, self@), amount),
            ),
            issuance_in(final(ledger)@.issuance, self@) == sat_sub_u128(
                issuance_in(old(ledger)@.issuance, self@),
                amount,
            ),
            forall|t: u64| t != self@ ==> issuance_in(final(ledger)@.issuance, t) == issuance_in(
                old(ledger)@.issuance,
                t,
            ),
            final(ledger)@.balances == old(ledger)@.balances,
            final(ledger)@.last_token_id == old(ledger)@.last_token_id,
            final(ledger)@.events == old(ledger)@.events,
    {
        if amount == 0 {
            return PositiveImbalance::new(0, self.token);
        }
        let supply = ledger.get_issuance(self.token);
        ledger.set_issuance(self.token, supply.saturating_sub(amount));
        proof {
            assert forall|t: u64|
                issuance_in(ledger@.issuance, t) == if t == self@ {
                    sat_sub_u128(issuance_in(old(ledger)@.issuance, self@), amount)
                } else {
                    issuance_in(old(ledger)@.issuance, t)
                } by {
                model::lemma_issuance_in_write(
                    old(ledger)@.issuance,
                    self@,
                    sat_sub_u128(issuance_in(old(ledger)@.issuance, self@), amount),
                    t,
                );
            }
        }
        PositiveImbalance::new(amount, self.token)
    }

    /// Expands the supply: raises the bound token's issuance by `amount`,
    /// saturating, touching no individual balance. Returns a deficit of the
    /// full `amount`, to be discharged by whoever receives the new funds. A
    /// zero amount writes nothing.
    pub fn issue(&self, ledger: &mut Pallet, amount: u128) -> (r: NegativeImbalance)
        ensures
            r@.amount == amount,
            r@.token == self@,
            amount == 0 ==> final(ledger)@ == old(ledger)@,
            amount > 0 ==> final(ledger)@.issuance == write_issuance(
                old(ledger)@.issuance,
                self@,
                sat_add_u128(issuance_in(old(ledger)@.issuance, self@), amount),
            ),
            issuance_in(final(ledger)@.issuance, self@) == sat_add_u128(
                issuance_in(old(ledger)@.issuance, self@),
                amount,
            ),
            forall|t: u64| t != self@ ==> issuance_in(final(ledger)@.issuance, t) == issuance_in(
                old(ledger)@.issuance,
                t,
            ),
            final(ledger)@.balances == old(ledger)@.balances,
            final(ledger)@.last_token_id == old(ledger)@.last_token_id,
            final(ledger)@.events == old(ledger)@.events,
    {
        if amount == 0 {
            return NegativeImbalance::new(0, self.token);
        }
        let supply = ledger.get_issuance(self.token);
        ledger.set_issuance(self.token, supply.saturating_add(amount));
        proof {
            assert forall|t: u64|
                issuance_in(ledger@.issuance, t) == if t == self@ {
                    sat_add_u128(issuance_in(old(ledger)@.issuance, self@), amount)
                } else {
                    issuance_in(old(ledger)@.issuance, t)
                } by {
                model::lemma_issuance_in_write(
                    old(ledger)@.issuance,
                    self@,
                    sat_add_u128(issuance_in(old(ledger)@.issuance, self@), amount),
                    t,
                );
            }
        }
        NegativeImbalance::new(amount, self.token)
    }

    /// Succeeds iff `who`'s balance is at least `new_balance`. The `value`
    /// being withdrawn is accepted but plays no part in the check.
    pub fn ensure_can_withdraw(
        &self,
        ledger: &Pallet,
        who: u64,
        _value: u128,
        new_balance: u128,
    ) -> (r: Result<(), Error>)
        ensures
            r is Ok <==> balance_in(ledger@.balances, who, self@) >= new_balance,
            r is Err ==> r == Err::<(), Error>(Error::OutOfFunds),
    {
        let balance = self.total_balance(ledger, who);
        if balance < new_balance {
            return Err(Error::OutOfFunds);
        }
        Ok(())
    }

    /// Moves `value` of the bound token from `from` to `to`. A zero value
    /// or a self-transfer succeeds as a no-op with no notification;
    /// otherwise the check and both writes are one atomic step, and on
    /// `OutOfFunds` nothing has changed. The existence-requirement argument
    /// is accepted but not enforced.
    pub fn transfer(
        &self,
        ledger: &mut Pallet,
        from: u64,
        to: u64,
        value: u128,
        _existence_requirement: ExistenceRequirement,
    ) -> (r: Result<(), Error>)
        ensures
            ({
                let (m2, r2) = spec_currency_transfer(old(ledger)@, from, to, self@, value);
                final(ledger)@ == m2 && r == r2
            }),
            value == 0 || from == to ==> r is Ok && final(ledger)@ == old(ledger)@,
            value > 0 && from != to && balance_in(old(ledger)@.balances, from, self@) < value ==> r
                == Err::<(), Error>(Error::OutOfFunds) && final(ledger)@ == old(ledger)@,
            value > 0 && from != to && balance_in(old(ledger)@.balances, from, self@) >= value ==> r
                is Ok && balance_in(final(ledger)@.balances, from, self@) == balance_in(
                old(ledger)@.balances,
                from,
                self@,
            ) - value && balance_in(final(ledger)@.balances, to, self@) == sat_add_u128(
                balance_in(old(ledger)@.balances, to, self@),
                value,
            ) && (forall|a: u64, t: u64| !((a == from || a == to) && t == self@) ==> balance_in(
                final(ledger)@.balances,
                a,
                t,
            ) == balance_in(old(ledger)@.balances, a, t)) && final(ledger)@.issuance == old(ledger)@.issuance && final(ledger)@.events == old(ledger)@.events.push(
                Event::TransferSingle(Some(from), Some(to), self@, value),
            ),
            final(ledger)@.issuance == old(ledger)@.issuance,
            model::conserved(old(ledger)@) ==> model::conserved(final(ledger)@),
    {
        let r = ledger.do_transfer(from, to, self.token, value);
        proof {
            if value > 0 && from != to && balance_in(old(ledger)@.balances, from, self@) >= value {
                model::lemma_transfer_success_effects(old(ledger)@, from, to, self@, value);
            }
            if model::conserved(old(ledger)@) {
                crate::laws::lemma_currency_transfer_preserves_conservation(
                    old(ledger)@,
                    from,
                    to,
                    self@,
                    value,
                );
            }
        }
        r
    }

    /// Reduces `who`'s balance by up to `value` and reports what was
    /// slashed as a deficit, together with the amount it could not slash. A
    /// notification of the slashed amount is recorded on every call. When
    /// the balance covers only part of `value`, the reported remainder is
    /// the full `value`: the shortfall computation reads the balance after
    /// it was zeroed, so a partial slash reports no credit for what it took.
    pub fn slash(&self, ledger: &mut Pallet, who: u64, value: u128) -> (r: (
        NegativeImbalance,
        u128,
    ))
        ensures
            r.0@.token == self@,
            final(ledger)@.issuance == old(ledger)@.issuance,
            final(ledger)@.last_token_id == old(ledger)@.last_token_id,
            final(ledger)@.events == old(ledger)@.events.push(
                Event::TransferSingle(Some(who), None, self@, r.0@.amount),
            ),
            value == 0 ==> r.0@.amount == 0 && r.1 == 0 && final(ledger)@.balances == old(ledger)@.balances,
            value > 0 && balance_in(old(ledger)@.balances, who, self@) == 0 ==> r.0@.amount == 0
                && r.1 == value && final(ledger)@.balances == old(ledger)@.balances,
            value > 0 && 0 < balance_in(old(ledger)@.balances, who, self@) < value ==> r.0@.amount
                == balance_in(old(ledger)@.balances, who, self@) && r.1 == value && final(ledger)@.balances == write_balance(old(ledger)@.balances, who, self@, 0),
            value > 0 && balance_in(old(ledger)@.balances, who, self@) >= value ==> r.0@.amount
                == value && r.1 == 0 && final(ledger)@.balances == write_balance(
                old(ledger)@.balances,
                who,
                self@,
                (balance_in(old(ledger)@.balances, who, self@) - value) as u128,
            ),
            value > 0 && balance_in(old(ledger)@.balances, who, self@) > 0 ==> balance_in(
                final(ledger)@.balances,
                who,
                self@,
            ) == sat_sub_u128(balance_in(old(ledger)@.balances, who, self@), value),
            forall|a: u64, t: u64| !(a == who && t == self@) ==> balance_in(
                final(ledger)@.balances,
                a,
                t,
            ) == balance_in(old(ledger)@.balances, a, t),
    {
        if value == 0 {
            ledger.deposit_event(Event::TransferSingle(Some(who), None, self.token, 0));
            return (NegativeImbalance::new(0, self.token), 0);
        }
        let balance = ledger.get_balance(who, self.token);
        if balance == 0 {
            ledger.deposit_event(Event::TransferSingle(Some(who), None, self.token, 0));
            return (NegativeImbalance::new(0, self.token), value);
        }
        let slashed: u128;
        let remaining: u128;
        if balance < value {
            slashed = balance;
            remaining = value;
            ledger.set_balance(who, self.token, 0);
        } else {
            slashed = value;
            remaining = 0;
            ledger.set_balance(who, self.token, balance - value);
        }
        proof {
            assert forall|a: u64, t: u64| !(a == who && t == self@) implies balance_in(
                ledger@.balances,
                a,
                t,
            ) == balance_in(old(ledger)@.balances, a, t) by {
                model::lemma_balance_in_write(
                    old(ledger)@.balances,
                    who,
                    self@,
                    if balance_in(old(ledger)@.balances, who, self@) < value {
                        0
                    } else {
                        (balance_in(old(ledger)@.balances, who, self@) - value) as u128
                    },
                    a,
                    t,
                );
            }
            model::lemma_balance_in_write(
                old(ledger)@.balances,
                who,
                self@,
                if balance_in(old(ledger)@.balances, who, self@) < value {
                    0
                } else {
                    (balance_in(old(ledger)@.balances, who, self@) - value) as u128
                },
                who,
                self@,
            );
        }
        ledger.deposit_event(Event::TransferSingle(Some(who), None, self.token, slashed));
        (NegativeImbalance::new(slashed, self.token), remaining)
    }

    /// Adds `value` to `who`'s balance (saturating) iff a balance cell for
    /// `who` already exists; a zero value succeeds without touching the
    /// store. Returns the matching surplus.
    pub fn deposit_into_existing(&self, ledger: &mut Pallet, who: u64, value: u128) -> (r: Result<
        PositiveImbalance,
        Error,
    >)
        ensures
            value == 0 ==> (r matches Ok(imb) && imb@.amount == 0 && imb@.token == self@) && final(ledger)@ == old(ledger)@,
            value > 0 && !has_balance(old(ledger)@.balances, who, self@) ==> r == Err::<
                PositiveImbalance,
                Error,
            >(Error::AccountNotFound) && final(ledger)@ == old(ledger)@,
            value > 0 && has_balance(old(ledger)@.balances, who, self@) ==> (r matches Ok(imb)
                && imb@.amount == value && imb@.token == self@) && final(ledger)@.balances
                == write_balance(
                old(ledger)@.balances,
                who,
                self@,
                sat_add_u128(balance_in(old(ledger)@.balances, who, self@), value),
            ) && final(ledger)@.issuance == old(ledger)@.issuance && final(ledger)@.events == old(ledger)@.events && final(ledger)@.last_token_id == old(ledger)@.last_token_id,
    {
        if value == 0 {
            return Ok(PositiveImbalance::new(0, self.token));
        }
        if !ledger.has_balance_entry(who, self.token) {
            return Err(Error::AccountNotFound);
        }
        let balance = ledger.get_balance(who, self.token);
        ledger.set_balance(who, self.token, balance.saturating_add(value));
        Ok(PositiveImbalance::new(value, self.token))
    }

    /// Adds `value` to `who`'s balance (saturating), creating the cell if
    /// absent; a zero value touches nothing. Returns the matching surplus.
    pub fn deposit_creating(&self, ledger: &mut Pallet, who: u64, value: u128) -> (r:
        PositiveImbalance)
        ensures
            r@.amount == value,
            r@.token == self@,
            value == 0 ==> final(ledger)@ == old(ledger)@,
            value > 0 ==> final(ledger)@.balances == write_balance(
                old(ledger)@.balances,
                who,
                self@,
                sat_add_u128(balance_in(old(ledger)@.balances, who, self@), value),
            ) && final(ledger)@.issuance == old(ledger)@.issuance && final(ledger)@.events == old(ledger)@.events && final(ledger)@.last_token_id == old(ledger)@.last_token_id,
    {
        if value == 0 {
            return PositiveImbalance::new(0, self.token);
        }
        let balance = ledger.get_balance(who, self.token);
        ledger.set_balance(who, self.token, balance.saturating_add(value));
        PositiveImbalance::new(value, self.token)
    }

    /// Removes `value` from `who`'s balance iff the balance covers it,
    /// failing with `OutOfFunds` and touching nothing otherwise. Returns
    /// the matching deficit.
    pub fn withdraw(&self, ledger: &mut Pallet, who: u64, value: u128) -> (r: Result<
        NegativeImbalance,
        Error,
    >)
        ensures
            balance_in(old(ledger)@.balances, who, self@) < value ==> r == Err::<
                NegativeImbalance,
                Error,
            >(Error::OutOfFunds) && final(ledger)@ == old(ledger)@,
            balance_in(old(ledger)@.balances, who, self@) >= value ==> (r matches Ok(imb)
                && imb@.amount == value && imb@.token == self@) && final(ledger)@.balances
                == write_balance(
                old(ledger)@.balances,
                who,
                self@,
                (balance_in(old(ledger)@.balances, who, self@) - value) as u128,
            ) && final(ledger)@.issuance == old(ledger)@.issuance && final(ledger)@.events == old(ledger)@.events && final(ledger)@.last_token_id == old(ledger)@.last_token_id,
    {
        let balance = ledger.get_balance(who, self.token);
        if balance < value {
            return Err(Error::OutOfFunds);
        }
        ledger.set_balance(who, self.token, balance - value);
        Ok(NegativeImbalance::new(value, self.token))
    }

    /// Force-sets `who`'s balance to `value` and returns the signed delta
    /// with the polarity whose discharge restores conservation: a raised
    /// balance is so much value created, hence a surplus of
    /// `value - balance`; a lowered one so much destroyed, hence a deficit
    /// of `balance - value` (an unchanged balance yields a zero surplus).
    pub fn make_free_balance_be(&self, ledger: &mut Pallet, who: u64, value: u128) -> (r:
        SignedImbalance)
        ensures
            final(ledger)@.balances == write_balance(old(ledger)@.balances, who, self@, value),
            final(ledger)@.issuance == old(ledger)@.issuance,
            final(ledger)@.events == old(ledger)@.events,
            final(ledger)@.last_token_id == old(ledger)@.last_token_id,
            balance_in(final(ledger)@.balances, who, self@) == value,
            value >= balance_in(old(ledger)@.balances, who, self@) ==> (r matches
                SignedImbalance::Positive(p) && p@.amount == value - balance_in(
                old(ledger)@.balances,
                who,
                self@,
            ) && p@.token == self@),
            value < balance_in(old(ledger)@.balances, who, self@) ==> (r matches
                SignedImbalance::Negative(n) && n@.amount == balance_in(
                old(ledger)@.balances,
                who,
                self@,
            ) - value && n@.token == self@),
    {
        let balance = ledger.get_balance(who, self.token);
        ledger.set_balance(who, self.token, value);
        proof {
            model::lemma_balance_in_write(old(ledger)@.balances, who, self@, value, who, self@);
        }
        if value >= balance {
            SignedImbalance::Positive(PositiveImbalance::new(value - balance, self.token))
        } else {
            SignedImbalance::Negative(NegativeImbalance::new(balance - value, self.token))
        }
    }
}

} // verus!
