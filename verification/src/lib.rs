//! A multi-token balance ledger with a conservation guarantee: for every
//! token, the recorded total issuance equals the sum of all account balances
//! once every outstanding imbalance has been reconciled.
//!
//! The durable state (per-(account, token) balances, per-token issuance, and
//! the token-id counter) lives in an explicit [`Pallet`] store. Supply changes
//! travel as ephemeral [`imbalance`] values that must be consumed exactly
//! once; discharging one into the issuance counter is the only way issuance
//! ever moves.

use vstd::prelude::*;

pub mod erc1155;
pub mod imbalance;
pub mod laws;
pub mod model;
pub mod token;

use model::BalanceEntry;
use model::IssuanceEntry;
use model::LedgerView;
use model::balance_in;
use model::conserved;
use model::has_balance;
use model::issuance_in;
use model::sat_add_u64;
use model::sat_add_u128;
use model::spec_burn;
use model::spec_mint;
use model::spec_transfer;
use model::write_balance;
use model::write_issuance;
use imbalance::NegativeImbalance;
use imbalance::PositiveImbalance;

verus! {

/// Errors raised by ledger operations.
#[derive(Clone, Copy, Debug, PartialEq, Eq, Structural)]
pub enum Error {
    /// Reserved for future use; no core operation raises it today.
    TokenNotFound,
    /// A debit-style check found the balance too small.
    OutOfFunds,
    /// A target account failed an existence precondition.
    AccountNotFound,
    /// The operation is declared in the interface but intentionally
    /// unimplemented (the approval/operator surface).
    NotSupported,
}

/// Notification of a balance movement.
///
/// `from` is `None` when the movement originates from a mint, `to` is `None`
/// when it originates from a burn or slash. Fields: from, to, token, amount.
#[derive(Clone, Copy, Debug, PartialEq, Eq)]
pub enum Event {
    TransferSingle(Option<u64>, Option<u64>, u64, u128),
}

/// The ledger store: every durable cell of the system, owned explicitly
/// rather than reached through process-global paths.
pub struct Pallet {
    balances: Vec<BalanceEntry>,
    issuance: Vec<IssuanceEntry>,
    last_token_id: u64,
    events: Vec<Event>,
}

impl View for Pallet {
    type V = LedgerView;

    closed spec fn view(&self) -> LedgerView {
        LedgerView {
            balances: self.balances@,
            issuance: self.issuance@,
            last_token_id: self.last_token_id,
            events: self.events@,
        }
    }
}

impl Pallet {
    /// Reads the balance of `(account, token)`; an absent entry reads as zero.
    pub fn get_balance(&self, account: u64, token: u64) -> (r: u128)
        ensures
            r == balance_in(self@.balances, account, token),
    {
        match self.find_balance_index(account, token) {
            Some(i) => {
                let e = self.balances[i];
                proof {
                    model::lemma_balance_in_found(self@.balances, account, token, i as int);
                }
                e.amount
            },
            None => {
                proof {
                    model::lemma_balance_in_not_found(self@.balances, account, token);
                }
                0
            },
        }
    }

    /// Index of the entry holding `(account, token)`, if one is stored.
    fn find_balance_index(&self, account: u64, token: u64) -> (r: Option<usize>)
        ensures
            match r {
                Some(i) => i < self@.balances.len()
                    && model::bal_key_matches(self@.balances[i as int], account, token)
                    && (forall|j: int| 0 <= j < i
                        ==> !model::bal_key_matches(self@.balances[j], account, token)),
                None => forall|j: int| 0 <= j < self@.balances.len()
                    ==> !model::bal_key_matches(self@.balances[j], account, token),
            },
    {
        let n = self.balances.len();
        let mut i: usize = 0;
        while i < n
            invariant
                i <= n,
                n == self.balances.len(),
                forall|j: int| 0 <= j < i
                    ==> !model::bal_key_matches(self@.balances[j], account, token),
            decreases n - i,
        {
            let e = self.balances[i];
            if e.account == account && e.token == token {
                return Some(i);
            }
            i = i + 1;
        }
        None
    }

    /// Whether a cell for `(account, token)` is stored at all; a reading of
    /// zero does not distinguish an absent cell from a stored zero, this
    /// does.
    pub fn has_balance_entry(&self, account: u64, token: u64) -> (r: bool)
        ensures
            r == has_balance(self@.balances, account, token),
    {
        match self.find_balance_index(account, token) {
            Some(i) => {
                proof {
                    model::lemma_balance_in_found(self@.balances, account, token, i as int);
                }
                true
            },
            None => {
                proof {
                    model::lemma_balance_in_not_found(self@.balances, account, token);
                }
                false
            },
        }
    }

    /// Sets the balance of `(account, token)`, creating the cell if absent.
    pub fn set_balance(&mut self, account: u64, token: u64, amount: u128)
        ensures
            final(self)@.balances == write_balance(old(self)@.balances, account, token, amount),
            final(self)@.issuance == old(self)@.issuance,
            final(self)@.last_token_id == old(self)@.last_token_id,
            final(self)@.events == old(self)@.events,
    {
        match self.find_balance_index(account, token) {
            Some(i) => {
                proof {
                    model::lemma_write_balance_found(
                        self@.balances,
                        account,
                        token,
                        amount,
                        i as int,
                    );
                }
                self.balances.set(i, BalanceEntry { account, token, amount });
            },
            None => {
                proof {
                    model::lemma_write_balance_not_found(self@.balances, account, token, amount);
                }
                self.balances.push(BalanceEntry { account, token, amount });
            },
        }
    }

    /// Index of the issuance cell for `token`, if one is stored.
    fn find_issuance_index(&self, token: u64) -> (r: Option<usize>)
        ensures
            match r {
                Some(i) => i < self@.issuance.len() && self@.issuance[i as int].token == token
                    && (forall|j: int| 0 <= j < i ==> self@.issuance[j].token != token),
                None => forall|j: int| 0 <= j < self@.issuance.len()
                    ==> self@.issuance[j].token != token,
            },
    {
        let n = self.issuance.len();
        let mut i: usize = 0;
        while i < n
            invariant
                i <= n,
                n == self.issuance.len(),
                forall|j: int| 0 <= j < i ==> self@.issuance[j].token != token,
            decreases n - i,
        {
            let e = self.issuance[i];
            if e.token == token {
                return Some(i);
            }
            i = i + 1;
        }
        None
    }

    /// Reads the total issuance of `token`; an absent cell reads as zero.
    pub fn get_issuance(&self, token: u64) -> (r: u128)
        ensures
            r == issuance_in(self@.issuance, token),
    {
        match self.find_issuance_index(token) {
            Some(i) => {
                let e = self.issuance[i];
                proof {
                    model::lemma_issuance_in_found(self@.issuance, token, i as int);
                }
                e.amount
            },
            None => {
                proof {
                    model::lemma_issuance_in_not_found(self@.issuance, token);
                }
                0
            },
        }
    }

    /// Sets the total issuance of `token`, creating the cell if absent.
    pub fn set_issuance(&mut self, token: u64, amount: u128)
        ensures
            final(self)@.issuance == write_issuance(old(self)@.issuance, token, amount),
            final(self)@.balances == old(self)@.balances,
            final(self)@.last_token_id == old(self)@.last_token_id,
            final(self)@.events == old(self)@.events,
    {
        match self.find_issuance_index(token) {
            Some(i) => {
                proof {
                    model::lemma_write_issuance_found(self@.issuance, token, amount, i as int);
                }
                self.issuance.set(i, IssuanceEntry { token, amount });
            },
            None => {
                proof {
                    model::lemma_write_issuance_not_found(self@.issuance, token, amount);
                }
                self.issuance.push(IssuanceEntry { token, amount });
            },
        }
    }

    /// Hands out the next token identifier: reads the counter, then
    /// increments it (saturating).
    pub fn next_token_id(&mut self) -> (r: u64)
        ensures
            r == old(self)@.last_token_id,
            final(self)@.last_token_id == sat_add_u64(old(self)@.last_token_id, 1),
            final(self)@.balances == old(self)@.balances,
            final(self)@.issuance == old(self)@.issuance,
            final(self)@.events == old(self)@.events,
    {
        let token = self.last_token_id;
        self.last_token_id = self.last_token_id.saturating_add(1);
        token
    }

    /// Records a notification.
    fn deposit_event(&mut self, event: Event)
        ensures
            final(self)@.events == old(self)@.events.push(event),
            final(self)@.balances == old(self)@.balances,
            final(self)@.issuance == old(self)@.issuance,
            final(self)@.last_token_id == old(self)@.last_token_id,
    {
        self.events.push(event);
    }

    /// The notifications recorded so far, oldest first.
    pub fn events(&self) -> (r: &Vec<Event>)
        ensures
            r@ == self@.events,
    {
        &self.events
    }

    /// The balance of `owner` in token `id`; an absent entry reads as zero.
    pub fn balance_of(&self, owner: u64, id: u64) -> (r: u128)
        ensures
            r == balance_in(self@.balances, owner, id),
    {
        self.get_balance(owner, id)
    }

    /// The balances of each `(owner, id)` pair, in input order.
    pub fn balance_of_batch(&self, owner_ids: &Vec<(u64, u64)>) -> (r: Vec<u128>)
        ensures
            r@.len() == owner_ids@.len(),
            forall|i: int| 0 <= i < owner_ids@.len() ==> r@[i] == balance_in(
                self@.balances,
                owner_ids@[i].0,
                owner_ids@[i].1,
            ),
    {
        let n = owner_ids.len();
        let mut out: Vec<u128> = Vec::new();
        let mut i: usize = 0;
        while i < n
            invariant
                i <= n,
                n == owner_ids@.len(),
                out@.len() == i,
                forall|j: int| 0 <= j < i ==> out@[j] == balance_in(
                    self@.balances,
                    owner_ids@[j].0,
                    owner_ids@[j].1,
                ),
            decreases n - i,
        {
            let (owner, id) = owner_ids[i];
            let b = self.get_balance(owner, id);
            out.push(b);
            i = i + 1;
        }
        out
    }

    /// The shared body of the two transfer entry points: the
    /// zero-value/self-transfer short circuit, the atomic
    /// check-debit-credit, and the notification.
    pub(crate) fn do_transfer(&mut self, from: u64, to: u64, id: u64, value: u128) -> (r: Result<
        (),
        Error,
    >)
        ensures
            ({
                let (m2, r2) = model::spec_currency_transfer(old(self)@, from, to, id, value);
                final(self)@ == m2 && r == r2
            }),
    {
        if value == 0 || from == to {
            return Ok(());
        }
        let from_balance = self.get_balance(from, id);
        if from_balance < value {
            return Err(Error::OutOfFunds);
        }
        let ghost m0 = self@;
        self.set_balance(from, id, from_balance - value);
        proof {
            model::lemma_balance_in_write(
                m0.balances,
                from,
                id,
                (from_balance - value) as u128,
                to,
                id,
            );
        }
        let to_balance = self.get_balance(to, id);
        self.set_balance(to, id, to_balance.saturating_add(value));
        self.deposit_event(Event::TransferSingle(Some(from), Some(to), id, value));
        proof {
            assert(self@ =~= model::spec_currency_transfer(m0, from, to, id, value).0);
        }
        Ok(())
    }

    /// Moves `value` of token `id` from `from` to `to`.
    ///
    /// `to` must not be the default account. A zero value or a self-transfer
    /// succeeds as a deliberate no-op: no storage write, no notification.
    /// Otherwise the sufficiency check and both balance writes form one
    /// atomic step: on `OutOfFunds` nothing at all has changed.
    pub fn safe_transfer_from(&mut self, from: u64, to: u64, id: u64, value: u128) -> (r: Result<
        (),
        Error,
    >)
        ensures
            ({
                let (m2, r2) = spec_transfer(old(self)@, from, to, id, value);
                final(self)@ == m2 && r == r2
            }),
            to == 0 ==> r == Err::<(), Error>(Error::AccountNotFound) && final(self)@ == old(
                self,
            )@,
            to != 0 && (value == 0 || from == to) ==> r is Ok && final(self)@ == old(self)@,
            to != 0 && value > 0 && from != to && balance_in(old(self)@.balances, from, id) < value
                ==> r == Err::<(), Error>(Error::OutOfFunds) && final(self)@ == old(self)@,
            to != 0 && value > 0 && from != to && balance_in(old(self)@.balances, from, id) >= value
                ==> r is Ok && balance_in(final(self)@.balances, from, id) == balance_in(
                old(self)@.balances,
                from,
                id,
            ) - value && balance_in(final(self)@.balances, to, id) == sat_add_u128(
                balance_in(old(self)@.balances, to, id),
                value,
            ) && (forall|a: u64, t: u64| !((a == from || a == to) && t == id) ==> balance_in(
                final(self)@.balances,
                a,
                t,
            ) == balance_in(old(self)@.balances, a, t)) && final(self)@.issuance == old(
                self,
            )@.issuance && final(self)@.events == old(self)@.events.push(
                Event::TransferSingle(Some(from), Some(to), id, value),
            ),
            final(self)@.issuance == old(self)@.issuance,
            conserved(old(self)@) ==> conserved(final(self)@),
    {
        if to == 0 {
            return Err(Error::AccountNotFound);
        }
        let r = self.do_transfer(from, to, id, value);
        proof {
            if value > 0 && from != to && balance_in(old(self)@.balances, from, id) >= value {
                model::lemma_transfer_success_effects(old(self)@, from, to, id, value);
            }
            if conserved(old(self)@) {
                laws::lemma_currency_transfer_preserves_conservation(
                    old(self)@,
                    from,
                    to,
                    id,
                    value,
                );
            }
        }
        r
    }

    /// Creates `amount` of token `id` in `account`'s balance and returns the
    /// matching surplus; issuance catches up only when that surplus is
    /// reconciled. `account` must not be the default account; a zero amount
    /// yields a zero surplus and writes nothing.
    pub fn mint(&mut self, account: u64, id: u64, amount: u128) -> (r: Result<
        PositiveImbalance,
        Error,
    >)
        ensures
            ({
                let (m2, r2) = spec_mint(old(self)@, account, id, amount);
                final(self)@ == m2 && (match (r, r2) {
                    (Ok(imb), Ok(iv)) => imb@ == iv,
                    (Err(e), Err(e2)) => e == e2,
                    _ => false,
                })
            }),
            account == 0 ==> (r matches Err(e) && e == Error::AccountNotFound) && final(self)@
                == old(self)@,
            account != 0 ==> (r matches Ok(imb) && imb@.amount == amount && imb@.token == id),
            account != 0 && amount == 0 ==> final(self)@ == old(self)@,
            account != 0 && amount > 0 ==> balance_in(final(self)@.balances, account, id)
                == sat_add_u128(balance_in(old(self)@.balances, account, id), amount) && (forall|
                a: u64,
                t: u64,
            | !(a == account && t == id) ==> balance_in(final(self)@.balances, a, t) == balance_in(
                old(self)@.balances,
                a,
                t,
            )) && final(self)@.issuance == old(self)@.issuance && final(self)@.events == old(
                self,
            )@.events,
    {
        if account == 0 {
            return Err(Error::AccountNotFound);
        }
        if amount == 0 {
            return Ok(PositiveImbalance::new(0, id));
        }
        let balance = self.get_balance(account, id);
        let ghost m0 = self@;
        self.set_balance(account, id, balance.saturating_add(amount));
        proof {
            assert forall|a: u64, t: u64|
                balance_in(self@.balances, a, t) == if a == account && t == id {
                    sat_add_u128(balance_in(m0.balances, account, id), amount)
                } else {
                    balance_in(m0.balances, a, t)
                } by {
                model::lemma_balance_in_write(
                    m0.balances,
                    account,
                    id,
                    sat_add_u128(balance_in(m0.balances, account, id), amount),
                    a,
                    t,
                );
            }
            assert(self@ =~= spec_mint(m0, account, id, amount).0);
        }
        Ok(PositiveImbalance::new(amount, id))
    }

    /// Destroys `amount` of token `id` from `account`'s balance and returns
    /// the matching deficit; issuance catches up only when that deficit is
    /// reconciled. Fails with `OutOfFunds`, mutating nothing, iff the
    /// balance does not cover `amount`.
    pub fn burn(&mut self, account: u64, id: u64, amount: u128) -> (r: Result<
        NegativeImbalance,
        Error,
    >)
        ensures
            ({
                let (m2, r2) = spec_burn(old(self)@, account, id, amount);
                final(self)@ == m2 && (match (r, r2) {
                    (Ok(imb), Ok(iv)) => imb@ == iv,
                    (Err(e), Err(e2)) => e == e2,
                    _ => false,
                })
            }),
            balance_in(old(self)@.balances, account, id) < amount ==> (r matches Err(e) && e
                == Error::OutOfFunds) && final(self)@ == old(self)@,
            balance_in(old(self)@.balances, account, id) >= amount ==> (r matches Ok(imb) && imb@
                == (model::ImbView { amount, token: id })) && balance_in(
                final(self)@.balances,
                account,
                id,
            ) == balance_in(old(self)@.balances, account, id) - amount && (forall|a: u64, t: u64|
                !(a == account && t == id) ==> balance_in(final(self)@.balances, a, t)
                    == balance_in(old(self)@.balances, a, t)) && final(self)@.issuance == old(
                self,
            )@.issuance && final(self)@.events == old(self)@.events,
    {
        let balance = self.get_balance(account, id);
        if balance < amount {
            return Err(Error::OutOfFunds);
        }
        let ghost m0 = self@;
        self.set_balance(account, id, balance - amount);
        proof {
            assert forall|a: u64, t: u64|
                balance_in(self@.balances, a, t) == if a == account && t == id {
                    (balance_in(m0.balances, account, id) - amount) as u128
                } else {
                    balance_in(m0.balances, a, t)
                } by {
                model::lemma_balance_in_write(
                    m0.balances,
                    account,
                    id,
                    (balance_in(m0.balances, account, id) - amount) as u128,
                    a,
                    t,
                );
            }
            assert(self@ =~= spec_burn(m0, account, id, amount).0);
        }
        Ok(NegativeImbalance::new(amount, id))
    }

    /// The approval/operator surface is declared but intentionally
    /// unimplemented: every path signals `NotSupported` rather than silently
    /// approving or denying.
    pub fn set_approval_for_all(&self, _owner: u64, _approved: bool) -> (r: Result<(), Error>)
        ensures
            r == Err::<(), Error>(Error::NotSupported),
    {
        Err(Error::NotSupported)
    }

    /// See `set_approval_for_all`.
    pub fn is_approved_for_all(&self, _owner: u64, _operator: u64) -> (r: Result<bool, Error>)
        ensures
            r == Err::<bool, Error>(Error::NotSupported),
    {
        Err(Error::NotSupported)
    }

    /// Transfers each `(token, value)` pair from `from` to `to`, in input
    /// order, short-circuiting at the first failure. Pairs before the
    /// failure remain applied: best-effort prefix semantics, deliberately
    /// not all-or-nothing.
    #[verifier::loop_isolation(false)]
    pub fn safe_batch_transfer_from(
        &mut self,
        from: u64,
        to: u64,
        id_values: &Vec<(u64, u128)>,
    ) -> (r: Result<(), Error>)
        ensures
            ({
                let (m2, r2) = model::spec_transfer_batch(old(self)@, from, to, id_values@);
                final(self)@ == m2 && r == r2
            }),
    {
        let n = id_values.len();
        let ghost m0 = self@;
        let ghost pairs = id_values@;
        proof {
            assert(pairs.skip(0) =~= pairs);
        }
        let mut i: usize = 0;
        while i < n
            invariant
                i <= n,
                n == id_values@.len(),
                pairs == id_values@,
                model::spec_transfer_batch(m0, from, to, pairs) == model::spec_transfer_batch(
                    self@,
                    from,
                    to,
                    pairs.skip(i as int),
                ),
            decreases n - i,
        {
            let (id, value) = id_values[i];
            proof {
                assert(pairs.skip(i as int)[0] == (id, value));
                assert(pairs.skip(i as int).drop_first() =~= pairs.skip(i as int + 1));
            }
            match self.safe_transfer_from(from, to, id, value) {
                Ok(_) => {},
                Err(e) => {
                    return Err(e);
                },
            }
            i = i + 1;
        }
        proof {
            assert(pairs.skip(n as int) =~= Seq::<(u64, u128)>::empty());
        }
        Ok(())
    }

    /// Mints each `(token, amount)` pair into `account`, reconciling each
    /// surplus into issuance at once, in input order, short-circuiting at
    /// the first failure; the prefix remains applied.
    #[verifier::loop_isolation(false)]
    pub fn mint_batch(&mut self, account: u64, id_amounts: &Vec<(u64, u128)>) -> (r: Result<
        (),
        Error,
    >)
        ensures
            ({
                let (m2, r2) = model::spec_mint_batch(old(self)@, account, id_amounts@);
                final(self)@ == m2 && r == r2
            }),
    {
        let n = id_amounts.len();
        let ghost m0 = self@;
        let ghost pairs = id_amounts@;
        proof {
            assert(pairs.skip(0) =~= pairs);
        }
        let mut i: usize = 0;
        while i < n
            invariant
                i <= n,
                n == id_amounts@.len(),
                pairs == id_amounts@,
                model::spec_mint_batch(m0, account, pairs) == model::spec_mint_batch(
                    self@,
                    account,
                    pairs.skip(i as int),
                ),
            decreases n - i,
        {
            let (id, amount) = id_amounts[i];
            proof {
                assert(pairs.skip(i as int)[0] == (id, amount));
                assert(pairs.skip(i as int).drop_first() =~= pairs.skip(i as int + 1));
            }
            match self.mint(account, id, amount) {
                Ok(imb) => {
                    imb.reconcile(self);
                },
                Err(e) => {
                    return Err(e);
                },
            }
            i = i + 1;
        }
        proof {
            assert(pairs.skip(n as int) =~= Seq::<(u64, u128)>::empty());
        }
        Ok(())
    }

    /// Burns each `(token, amount)` pair from `account`, reconciling each
    /// deficit into issuance at once, in input order, short-circuiting at
    /// the first failure; the prefix remains applied.
    #[verifier::loop_isolation(false)]
    pub fn burn_batch(&mut self, account: u64, id_amounts: &Vec<(u64, u128)>) -> (r: Result<
        (),
        Error,
    >)
        ensures
            ({
                let (m2, r2) = model::spec_burn_batch(old(self)@, account, id_amounts@);
                final(self)@ == m2 && r == r2
            }),
    {
        let n = id_amounts.len();
        let ghost m0 = self@;
        let ghost pairs = id_amounts@;
        proof {
            assert(pairs.skip(0) =~= pairs);
        }
        let mut i: usize = 0;
        while i < n
            invariant
                i <= n,
                n == id_amounts@.len(),
                pairs == id_amounts@,
                model::spec_burn_batch(m0, account, pairs) == model::spec_burn_batch(
                    self@,
                    account,
                    pairs.skip(i as int),
                ),
            decreases n - i,
        {
            let (id, amount) = id_amounts[i];
            proof {
                assert(pairs.skip(i as int)[0] == (id, amount));
                assert(pairs.skip(i as int).drop_first() =~= pairs.skip(i as int + 1));
            }
            match self.burn(account, id, amount) {
                Ok(imb) => {
                    imb.reconcile(self);
                },
                Err(e) => {
                    return Err(e);
                },
            }
            i = i + 1;
        }
        proof {
            assert(pairs.skip(n as int) =~= Seq::<(u64, u128)>::empty());
        }
        Ok(())
    }

    /// Allocates a fresh token identifier and seeds it: `account` holds
    /// `initial_supply`, and the token's issuance records the same amount.
    pub fn create_token(&mut self, account: u64, initial_supply: u128) -> (r: u64)
        ensures
            r == old(self)@.last_token_id,
            final(self)@.last_token_id == sat_add_u64(old(self)@.last_token_id, 1),
            final(self)@.balances == write_balance(old(self)@.balances, account, r, initial_supply),
            final(self)@.issuance == write_issuance(old(self)@.issuance, r, initial_supply),
            final(self)@.events == old(self)@.events,
    {
        let token = self.next_token_id();
        self.set_balance(account, token, initial_supply);
        self.set_issuance(token, initial_supply);
        token
    }
}

/// The one configuration input of the core: the token identifier that seeds
/// the counter at initialization.
pub struct GenesisConfig {
    pub initial_token: u64,
}

impl Default for GenesisConfig {
    fn default() -> (c: Self)
        ensures
            c.initial_token == 0,
    {
        GenesisConfig { initial_token: 0 }
    }
}

impl GenesisConfig {
    /// Builds the initial store: the counter seeded with `initial_token` and
    /// a zero-issuance cell for it. The conservation invariant holds from
    /// the start.
    pub fn build(&self) -> (p: Pallet)
        ensures
            p@.last_token_id == self.initial_token,
            p@.balances == Seq::<BalanceEntry>::empty(),
            p@.issuance == seq![IssuanceEntry { token: self.initial_token, amount: 0 }],
            p@.events == Seq::<Event>::empty(),
            conserved(p@),
    {
        let mut issuance: Vec<IssuanceEntry> = Vec::new();
        issuance.push(IssuanceEntry { token: self.initial_token, amount: 0 });
        let p = Pallet {
            balances: Vec::new(),
            issuance,
            last_token_id: self.initial_token,
            events: Vec::new(),
        };
        proof {
            assert forall|t: u64|
                issuance_in(p@.issuance, t) == #[trigger] model::token_sum(p@.balances, t) by {
                assert(issuance_in(p@.issuance.drop_first(), t) == 0);
                assert(model::token_sum(p@.balances, t) == 0);
            }
        }
        p
    }
}

} // verus!
