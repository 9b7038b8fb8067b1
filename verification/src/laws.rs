//! The ledger's laws: conservation of value over arbitrary sequences of
//! mint, burn and transfer operations, and the mint/burn round trip.

use vstd::prelude::*;

use crate::model::LedgerView;
use crate::model::balance_in;
use crate::model::conserved;
use crate::model::issuance_in;
use crate::model::lemma_balance_in_write;
use crate::model::lemma_balance_le_token_sum;
use crate::model::lemma_issuance_in_write;
use crate::model::lemma_token_sum_write;
use crate::model::lemma_two_balances_le_token_sum;
use crate::model::sat_add_u128;
use crate::model::spec_burn_settled;
use crate::model::spec_mint_settled;
use crate::model::spec_transfer;
use crate::model::token_sum;
use crate::model::write_balance;
use crate::model::write_issuance;

verus! {

/// One step of the accounting engine, with any imbalance it produces
/// reconciled into issuance before the next step.
pub ghost enum LedgerOp {
    Mint { account: u64, token: u64, amount: u128 },
    Burn { account: u64, token: u64, amount: u128 },
    Transfer { from: u64, to: u64, token: u64, amount: u128 },
}

/// The state after one operation; a failed operation leaves the state as it
/// was.
pub open spec fn apply_op(m: LedgerView, op: LedgerOp) -> LedgerView {
    match op {
        LedgerOp::Mint { account, token, amount } => spec_mint_settled(
            m,
            account,
            token,
            amount,
        ).0,
        LedgerOp::Burn { account, token, amount } => spec_burn_settled(m, account, token, amount).0,
        LedgerOp::Transfer { from, to, token, amount } => spec_transfer(
            m,
            from,
            to,
            token,
            amount,
        ).0,
    }
}

/// Whether an operation stays clear of saturation in state `m`: only a mint
/// can saturate once the state is conserved, and only when the token's
/// issuance cannot absorb the minted amount.
pub open spec fn op_fits(m: LedgerView, op: LedgerOp) -> bool {
    match op {
        LedgerOp::Mint { account, token, amount } => issuance_in(m.issuance, token) + amount
            <= u128::MAX,
        LedgerOp::Burn { account, token, amount } => true,
        LedgerOp::Transfer { from, to, token, amount } => true,
    }
}

/// The state after a whole sequence of operations, applied in order.
pub open spec fn apply_ops(m: LedgerView, ops: Seq<LedgerOp>) -> LedgerView
    decreases ops.len(),
{
    if ops.len() == 0 {
        m
    } else {
        apply_ops(apply_op(m, ops[0]), ops.drop_first())
    }
}

/// Whether every operation of the sequence fits in the state it runs in.
pub open spec fn ops_fit(m: LedgerView, ops: Seq<LedgerOp>) -> bool
    decreases ops.len(),
{
    ops.len() == 0 || (op_fits(m, ops[0]) && ops_fit(apply_op(m, ops[0]), ops.drop_first()))
}

/// A transfer — succeeding or failing, through either entry point — keeps
/// issuance equal to the balance sum for every token, with no side
/// condition: it moves value without creating or destroying any.
pub proof fn lemma_currency_transfer_preserves_conservation(
    m: LedgerView,
    from: u64,
    to: u64,
    token: u64,
    amount: u128,
)
    requires
        conserved(m),
    ensures
        conserved(crate::model::spec_currency_transfer(m, from, to, token, amount).0),
{
    if amount > 0 && from != to && balance_in(m.balances, from, token) >= amount {
        let bf = balance_in(m.balances, from, token);
        let bt = balance_in(m.balances, to, token);
        lemma_two_balances_le_token_sum(m.balances, from, to, token);
        assert(bt + amount <= u128::MAX);
        let b1 = write_balance(m.balances, from, token, (bf - amount) as u128);
        let m2 = crate::model::spec_currency_transfer(m, from, to, token, amount).0;
        assert forall|t: u64|
            issuance_in(m2.issuance, t) == #[trigger] token_sum(m2.balances, t) by {
            lemma_token_sum_write(m.balances, from, token, (bf - amount) as u128, t);
            lemma_balance_in_write(m.balances, from, token, (bf - amount) as u128, to, t);
            lemma_token_sum_write(b1, to, token, sat_add_u128(bt, amount), t);
        }
    }
}

/// One conserved step: a single mint, burn or transfer — succeeding or
/// failing — keeps issuance equal to the balance sum for every token,
/// provided a mint's amount fits in its token's issuance.
pub proof fn lemma_op_preserves_conservation(m: LedgerView, op: LedgerOp)
    requires
        conserved(m),
        op_fits(m, op),
    ensures
        conserved(apply_op(m, op)),
{
    match op {
        LedgerOp::Mint { account, token, amount } => {
            if account == 0 {
            } else if amount == 0 {
                let m2 = apply_op(m, op);
                assert forall|t: u64|
                    issuance_in(m2.issuance, t) == #[trigger] token_sum(m2.balances, t) by {
                    lemma_issuance_in_write(
                        m.issuance,
                        token,
                        sat_add_u128(issuance_in(m.issuance, token), 0),
                        t,
                    );
                }
            } else {
                let bal = balance_in(m.balances, account, token);
                let iss = issuance_in(m.issuance, token);
                lemma_balance_le_token_sum(m.balances, account, token);
                assert(bal + amount <= u128::MAX);
                let m2 = apply_op(m, op);
                assert forall|t: u64|
                    issuance_in(m2.issuance, t) == #[trigger] token_sum(m2.balances, t) by {
                    lemma_token_sum_write(
                        m.balances,
                        account,
                        token,
                        sat_add_u128(bal, amount),
                        t,
                    );
                    lemma_issuance_in_write(m.issuance, token, sat_add_u128(iss, amount), t);
                }
            }
        },
        LedgerOp::Burn { account, token, amount } => {
            let bal = balance_in(m.balances, account, token);
            if bal >= amount {
                let iss = issuance_in(m.issuance, token);
                lemma_balance_le_token_sum(m.balances, account, token);
                assert(iss >= amount);
                let m2 = apply_op(m, op);
                assert forall|t: u64|
                    issuance_in(m2.issuance, t) == #[trigger] token_sum(m2.balances, t) by {
                    lemma_token_sum_write(m.balances, account, token, (bal - amount) as u128, t);
                    lemma_issuance_in_write(
                        m.issuance,
                        token,
                        crate::model::sat_sub_u128(iss, amount),
                        t,
                    );
                }
            }
        },
        LedgerOp::Transfer { from, to, token, amount } => {
            if to != 0 {
                lemma_currency_transfer_preserves_conservation(m, from, to, token, amount);
            }
        },
    }
}

/// Conservation: starting from a conserved state — the built genesis state
/// is one — any sequence of mint, burn and transfer operations, each
/// reconciled and each fitting its state, ends in a state where every
/// token's recorded issuance equals the sum of all its account balances.
pub proof fn lemma_conservation(m: LedgerView, ops: Seq<LedgerOp>)
    requires
        conserved(m),
        ops_fit(m, ops),
    ensures
        conserved(apply_ops(m, ops)),
    decreases ops.len(),
{
    if ops.len() > 0 {
        lemma_op_preserves_conservation(m, ops[0]);
        lemma_conservation(apply_op(m, ops[0]), ops.drop_first());
    }
}

/// Mint/burn round trip: minting `amount` into an account and then burning
/// the same amount, both imbalances reconciled, returns every balance and
/// every token's issuance to its pre-mint value, provided neither step
/// saturates.
pub proof fn lemma_mint_burn_round_trip(m: LedgerView, account: u64, token: u64, amount: u128)
    requires
        account != 0,
        balance_in(m.balances, account, token) + amount <= u128::MAX,
        issuance_in(m.issuance, token) + amount <= u128::MAX,
    ensures
        ({
            let m1 = apply_op(m, LedgerOp::Mint { account, token, amount });
            let m2 = apply_op(m1, LedgerOp::Burn { account, token, amount });
            &&& forall|a: u64, t: u64| balance_in(m2.balances, a, t) == balance_in(m.balances, a, t)
            &&& forall|t: u64| issuance_in(m2.issuance, t) == issuance_in(m.issuance, t)
            &&& m2.events == m.events
            &&& m2.last_token_id == m.last_token_id
        }),
{
    let bal = balance_in(m.balances, account, token);
    let iss = issuance_in(m.issuance, token);
    let m1 = apply_op(m, LedgerOp::Mint { account, token, amount });
    let m2 = apply_op(m1, LedgerOp::Burn { account, token, amount });
    if amount == 0 {
        lemma_issuance_in_write(m.issuance, token, sat_add_u128(iss, 0), token);
        assert(balance_in(m1.balances, account, token) == bal);
        let i1 = m1.issuance;
        assert forall|a: u64, t: u64|
            balance_in(m2.balances, a, t) == balance_in(m.balances, a, t) by {
            lemma_balance_in_write(m.balances, account, token, bal, a, t);
        }
        assert forall|t: u64| issuance_in(m2.issuance, t) == issuance_in(m.issuance, t) by {
            lemma_issuance_in_write(m.issuance, token, iss, t);
            lemma_issuance_in_write(i1, token, crate::model::sat_sub_u128(issuance_in(i1, token), 0), t);
        }
    } else {
        let b1 = write_balance(m.balances, account, token, sat_add_u128(bal, amount));
        let i1 = write_issuance(m.issuance, token, sat_add_u128(iss, amount));
        lemma_balance_in_write(m.balances, account, token, (bal + amount) as u128, account, token);
        lemma_issuance_in_write(m.issuance, token, (iss + amount) as u128, token);
        assert(balance_in(b1, account, token) == bal + amount);
        assert forall|a: u64, t: u64|
            balance_in(m2.balances, a, t) == balance_in(m.balances, a, t) by {
            lemma_balance_in_write(m.balances, account, token, (bal + amount) as u128, a, t);
            lemma_balance_in_write(b1, account, token, bal, a, t);
        }
        assert forall|t: u64| issuance_in(m2.issuance, t) == issuance_in(m.issuance, t) by {
            lemma_issuance_in_write(m.issuance, token, (iss + amount) as u128, t);
            lemma_issuance_in_write(i1, token, iss, t);
        }
    }
}

} // verus!

