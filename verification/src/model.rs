//! The mathematical model of the ledger: the stored entries, spec-level
//! lookup, write and summation over them, the conservation predicate, and the
//! spec-level transitions that the executable operations are proved to follow.

use vstd::prelude::*;

use crate::Error;
use crate::Event;

verus! {

/// The abstract content of an imbalance: its unreconciled amount and the
/// token it belongs to. The polarity is carried by the concrete type.
pub ghost struct ImbView {
    pub amount: u128,
    pub token: u64,
}

/// One stored balance cell: `(account, token) -> amount`.
#[derive(Clone, Copy, Debug)]
pub struct BalanceEntry {
    pub account: u64,
    pub token: u64,
    pub amount: u128,
}

/// One stored issuance cell: `token -> total supply`.
#[derive(Clone, Copy, Debug)]
pub struct IssuanceEntry {
    pub token: u64,
    pub amount: u128,
}

/// The abstract state of the whole store.
#[verifier::ext_equal]
pub ghost struct LedgerView {
    pub balances: Seq<BalanceEntry>,
    pub issuance: Seq<IssuanceEntry>,
    pub last_token_id: u64,
    pub events: Seq<Event>,
}

/// Saturating addition of two balances.
pub open spec fn sat_add_u128(a: u128, b: u128) -> u128 {
    if a + b > u128::MAX {
        u128::MAX
    } else {
        (a + b) as u128
    }
}

/// Subtraction of two balances, clamped at zero.
pub open spec fn sat_sub_u128(a: u128, b: u128) -> u128 {
    if a < b {
        0
    } else {
        (a - b) as u128
    }
}

/// Saturating addition of token identifiers.
pub open spec fn sat_add_u64(a: u64, b: u64) -> u64 {
    if a + b > u64::MAX {
        u64::MAX
    } else {
        (a + b) as u64
    }
}

/// The smaller of two balances.
pub open spec fn min_u128(a: u128, b: u128) -> u128 {
    if a <= b {
        a
    } else {
        b
    }
}

/// Whether `e` is the cell for `(account, token)`.
pub open spec fn bal_key_matches(e: BalanceEntry, account: u64, token: u64) -> bool {
    e.account == account && e.token == token
}

/// Whether a cell for `(account, token)` is stored at all.
pub open spec fn has_balance(s: Seq<BalanceEntry>, account: u64, token: u64) -> bool
    decreases s.len(),
{
    s.len() > 0 && (bal_key_matches(s[0], account, token) || has_balance(
        s.drop_first(),
        account,
        token,
    ))
}

/// The balance stored for `(account, token)`; an absent cell reads as zero.
pub open spec fn balance_in(s: Seq<BalanceEntry>, account: u64, token: u64) -> u128
    decreases s.len(),
{
    if s.len() == 0 {
        0
    } else if bal_key_matches(s[0], account, token) {
        s[0].amount
    } else {
        balance_in(s.drop_first(), account, token)
    }
}

/// The store after setting the cell for `(account, token)` to `amount`:
/// the stored cell is overwritten, or a new one is appended.
pub open spec fn write_balance(
    s: Seq<BalanceEntry>,
    account: u64,
    token: u64,
    amount: u128,
) -> Seq<BalanceEntry>
    decreases s.len(),
{
    if s.len() == 0 {
        seq![BalanceEntry { account, token, amount }]
    } else if bal_key_matches(s[0], account, token) {
        s.update(0, BalanceEntry { account, token, amount })
    } else {
        seq![s[0]] + write_balance(s.drop_first(), account, token, amount)
    }
}

/// The sum of all stored balances of `token`, over every account.
pub open spec fn token_sum(s: Seq<BalanceEntry>, token: u64) -> int
    decreases s.len(),
{
    if s.len() == 0 {
        0
    } else {
        (if s[0].token == token {
            s[0].amount as int
        } else {
            0
        }) + token_sum(s.drop_first(), token)
    }
}

/// The issuance stored for `token`; an absent cell reads as zero.
pub open spec fn issuance_in(s: Seq<IssuanceEntry>, token: u64) -> u128
    decreases s.len(),
{
    if s.len() == 0 {
        0
    } else if s[0].token == token {
        s[0].amount
    } else {
        issuance_in(s.drop_first(), token)
    }
}

/// The store after setting the issuance of `token` to `amount`.
pub open spec fn write_issuance(s: Seq<IssuanceEntry>, token: u64, amount: u128) -> Seq<
    IssuanceEntry,
>
    decreases s.len(),
{
    if s.len() == 0 {
        seq![IssuanceEntry { token, amount }]
    } else if s[0].token == token {
        s.update(0, IssuanceEntry { token, amount })
    } else {
        seq![s[0]] + write_issuance(s.drop_first(), token, amount)
    }
}

/// The conservation invariant: for every token, the recorded issuance equals
/// the sum of all account balances of that token.
pub open spec fn conserved(m: LedgerView) -> bool {
    forall|t: u64| issuance_in(m.issuance, t) == #[trigger] token_sum(m.balances, t)
}

/// The transition of `Pallet::safe_transfer_from`: either an error that
/// leaves the store untouched, or the sender debited, the receiver credited
/// (saturating) and a notification recorded, as one atomic step.
pub open spec fn spec_transfer(
    m: LedgerView,
    from: u64,
    to: u64,
    token: u64,
    value: u128,
) -> (LedgerView, Result<(), Error>) {
    if to == 0 {
        (m, Err(Error::AccountNotFound))
    } else {
        spec_currency_transfer(m, from, to, token, value)
    }
}

/// The transition of `Erc1155Token::transfer`: like `spec_transfer` but
/// without the receiver-existence precondition.
pub open spec fn spec_currency_transfer(
    m: LedgerView,
    from: u64,
    to: u64,
    token: u64,
    value: u128,
) -> (LedgerView, Result<(), Error>) {
    if value == 0 || from == to {
        (m, Ok(()))
    } else if balance_in(m.balances, from, token) < value {
        (m, Err(Error::OutOfFunds))
    } else {
        let b1 = write_balance(
            m.balances,
            from,
            token,
            (balance_in(m.balances, from, token) - value) as u128,
        );
        let b2 = write_balance(
            b1,
            to,
            token,
            sat_add_u128(balance_in(m.balances, to, token), value),
        );
        (
            LedgerView {
                balances: b2,
                events: m.events.push(Event::TransferSingle(Some(from), Some(to), token, value)),
                ..m
            },
            Ok(()),
        )
    }
}

/// The transition of `Pallet::mint`: the account's balance grows
/// (saturating); issuance is untouched until the returned surplus is
/// reconciled.
pub open spec fn spec_mint(m: LedgerView, account: u64, token: u64, amount: u128) -> (
    LedgerView,
    Result<ImbView, Error>,
) {
    if account == 0 {
        (m, Err(Error::AccountNotFound))
    } else if amount == 0 {
        (m, Ok(ImbView { amount: 0, token }))
    } else {
        (
            LedgerView {
                balances: write_balance(
                    m.balances,
                    account,
                    token,
                    sat_add_u128(balance_in(m.balances, account, token), amount),
                ),
                ..m
            },
            Ok(ImbView { amount, token }),
        )
    }
}

/// The transition of `Pallet::burn`: the account's balance shrinks if it
/// covers `amount`; issuance is untouched until the returned deficit is
/// reconciled.
pub open spec fn spec_burn(m: LedgerView, account: u64, token: u64, amount: u128) -> (
    LedgerView,
    Result<ImbView, Error>,
) {
    if balance_in(m.balances, account, token) < amount {
        (m, Err(Error::OutOfFunds))
    } else {
        (
            LedgerView {
                balances: write_balance(
                    m.balances,
                    account,
                    token,
                    (balance_in(m.balances, account, token) - amount) as u128,
                ),
                ..m
            },
            Ok(ImbView { amount, token }),
        )
    }
}

/// The transition of discharging a surplus: the token's issuance grows,
/// saturating.
pub open spec fn spec_settle_positive(m: LedgerView, token: u64, amount: u128) -> LedgerView {
    LedgerView {
        issuance: write_issuance(
            m.issuance,
            token,
            sat_add_u128(issuance_in(m.issuance, token), amount),
        ),
        ..m
    }
}

/// The transition of discharging a deficit: the token's issuance shrinks,
/// clamped at zero.
pub open spec fn spec_settle_negative(m: LedgerView, token: u64, amount: u128) -> LedgerView {
    LedgerView {
        issuance: write_issuance(
            m.issuance,
            token,
            sat_sub_u128(issuance_in(m.issuance, token), amount),
        ),
        ..m
    }
}

/// A mint whose surplus is reconciled at once, as the batch operations and
/// the end-of-scope backstop do.
pub open spec fn spec_mint_settled(m: LedgerView, account: u64, token: u64, amount: u128) -> (
    LedgerView,
    Result<(), Error>,
) {
    let (m1, r) = spec_mint(m, account, token, amount);
    match r {
        Ok(iv) => (spec_settle_positive(m1, iv.token, iv.amount), Ok(())),
        Err(e) => (m1, Err(e)),
    }
}

/// A burn whose deficit is reconciled at once.
pub open spec fn spec_burn_settled(m: LedgerView, account: u64, token: u64, amount: u128) -> (
    LedgerView,
    Result<(), Error>,
) {
    let (m1, r) = spec_burn(m, account, token, amount);
    match r {
        Ok(iv) => (spec_settle_negative(m1, iv.token, iv.amount), Ok(())),
        Err(e) => (m1, Err(e)),
    }
}

/// The transition of `Pallet::safe_batch_transfer_from`: one transfer per
/// `(token, value)` pair, in input order, stopping at the first failure.
/// Pairs before the failure stay applied: a best-effort prefix, not
/// all-or-nothing.
pub open spec fn spec_transfer_batch(
    m: LedgerView,
    from: u64,
    to: u64,
    pairs: Seq<(u64, u128)>,
) -> (LedgerView, Result<(), Error>)
    decreases pairs.len(),
{
    if pairs.len() == 0 {
        (m, Ok(()))
    } else {
        let (m1, r1) = spec_transfer(m, from, to, pairs[0].0, pairs[0].1);
        if r1 is Err {
            (m1, r1)
        } else {
            spec_transfer_batch(m1, from, to, pairs.drop_first())
        }
    }
}

/// The transition of `Pallet::mint_batch`: one settled mint per pair, in
/// input order, stopping at the first failure; the prefix stays applied.
pub open spec fn spec_mint_batch(m: LedgerView, account: u64, pairs: Seq<(u64, u128)>) -> (
    LedgerView,
    Result<(), Error>,
)
    decreases pairs.len(),
{
    if pairs.len() == 0 {
        (m, Ok(()))
    } else {
        let (m1, r1) = spec_mint_settled(m, account, pairs[0].0, pairs[0].1);
        if r1 is Err {
            (m1, r1)
        } else {
            spec_mint_batch(m1, account, pairs.drop_first())
        }
    }
}

/// The transition of `Pallet::burn_batch`: one settled burn per pair, in
/// input order, stopping at the first failure; the prefix stays applied.
pub open spec fn spec_burn_batch(m: LedgerView, account: u64, pairs: Seq<(u64, u128)>) -> (
    LedgerView,
    Result<(), Error>,
)
    decreases pairs.len(),
{
    if pairs.len() == 0 {
        (m, Ok(()))
    } else {
        let (m1, r1) = spec_burn_settled(m, account, pairs[0].0, pairs[0].1);
        if r1 is Err {
            (m1, r1)
        } else {
            spec_burn_batch(m1, account, pairs.drop_first())
        }
    }
}

/// What a successful transfer does to the balances: sender debited,
/// receiver credited (saturating), every other cell and the issuance
/// untouched, one notification recorded.
pub proof fn lemma_transfer_success_effects(
    m: LedgerView,
    from: u64,
    to: u64,
    token: u64,
    value: u128,
)
    requires
        value > 0,
        from != to,
        balance_in(m.balances, from, token) >= value,
    ensures
        ({
            let m2 = spec_currency_transfer(m, from, to, token, value).0;
            &&& balance_in(m2.balances, from, token) == balance_in(m.balances, from, token)
                - value
            &&& balance_in(m2.balances, to, token) == sat_add_u128(
                balance_in(m.balances, to, token),
                value,
            )
            &&& forall|a: u64, t: u64| !((a == from || a == to) && t == token) ==> balance_in(
                m2.balances,
                a,
                t,
            ) == balance_in(m.balances, a, t)
            &&& m2.issuance == m.issuance
            &&& m2.last_token_id == m.last_token_id
            &&& m2.events == m.events.push(
                Event::TransferSingle(Some(from), Some(to), token, value),
            )
        }),
{
    let bf = balance_in(m.balances, from, token);
    let bt = balance_in(m.balances, to, token);
    let b1 = write_balance(m.balances, from, token, (bf - value) as u128);
    assert forall|a: u64, t: u64| !((a == from || a == to) && t == token) implies balance_in(
        write_balance(b1, to, token, sat_add_u128(bt, value)),
        a,
        t,
    ) == balance_in(m.balances, a, t) by {
        lemma_balance_in_write(b1, to, token, sat_add_u128(bt, value), a, t);
        lemma_balance_in_write(m.balances, from, token, (bf - value) as u128, a, t);
    }
    lemma_balance_in_write(b1, to, token, sat_add_u128(bt, value), from, token);
    lemma_balance_in_write(m.balances, from, token, (bf - value) as u128, from, token);
    lemma_balance_in_write(b1, to, token, sat_add_u128(bt, value), to, token);
}

/// A store with no cell for `(account, token)` reads zero for it.
pub proof fn lemma_balance_in_not_found(s: Seq<BalanceEntry>, account: u64, token: u64)
    requires
        forall|j: int| 0 <= j < s.len() ==> !bal_key_matches(s[j], account, token),
    ensures
        balance_in(s, account, token) == 0,
        !has_balance(s, account, token),
    decreases s.len(),
{
    if s.len() > 0 {
        assert(forall|j: int|
            0 <= j < s.drop_first().len() ==> s.drop_first()[j] == s[j + 1]);
        lemma_balance_in_not_found(s.drop_first(), account, token);
    }
}

/// Reading `(account, token)` yields the amount of its first stored cell.
pub proof fn lemma_balance_in_found(s: Seq<BalanceEntry>, account: u64, token: u64, i: int)
    requires
        0 <= i < s.len(),
        bal_key_matches(s[i], account, token),
        forall|j: int| 0 <= j < i ==> !bal_key_matches(s[j], account, token),
    ensures
        balance_in(s, account, token) == s[i].amount,
        has_balance(s, account, token),
    decreases i,
{
    if i > 0 {
        assert(forall|j: int|
            0 <= j < s.drop_first().len() ==> s.drop_first()[j] == s[j + 1]);
        lemma_balance_in_found(s.drop_first(), account, token, i - 1);
    }
}

/// Writing over the first stored cell for `(account, token)` is an in-place
/// update of the store.
pub proof fn lemma_write_balance_found(
    s: Seq<BalanceEntry>,
    account: u64,
    token: u64,
    amount: u128,
    i: int,
)
    requires
        0 <= i < s.len(),
        bal_key_matches(s[i], account, token),
        forall|j: int| 0 <= j < i ==> !bal_key_matches(s[j], account, token),
    ensures
        write_balance(s, account, token, amount) == s.update(
            i,
            BalanceEntry { account, token, amount },
        ),
    decreases i,
{
    if i > 0 {
        assert(forall|j: int|
            0 <= j < s.drop_first().len() ==> s.drop_first()[j] == s[j + 1]);
        lemma_write_balance_found(s.drop_first(), account, token, amount, i - 1);
        assert(write_balance(s, account, token, amount) =~= s.update(
            i,
            BalanceEntry { account, token, amount },
        ));
    } else {
        assert(write_balance(s, account, token, amount) =~= s.update(
            0,
            BalanceEntry { account, token, amount },
        ));
    }
}

/// Writing a cell that is not yet stored appends it.
pub proof fn lemma_write_balance_not_found(
    s: Seq<BalanceEntry>,
    account: u64,
    token: u64,
    amount: u128,
)
    requires
        forall|j: int| 0 <= j < s.len() ==> !bal_key_matches(s[j], account, token),
    ensures
        write_balance(s, account, token, amount) == s.push(
            BalanceEntry { account, token, amount },
        ),
    decreases s.len(),
{
    if s.len() == 0 {
        assert(write_balance(s, account, token, amount) =~= s.push(
            BalanceEntry { account, token, amount },
        ));
    } else {
        assert(forall|j: int|
            0 <= j < s.drop_first().len() ==> s.drop_first()[j] == s[j + 1]);
        lemma_write_balance_not_found(s.drop_first(), account, token, amount);
        assert(write_balance(s, account, token, amount) =~= s.push(
            BalanceEntry { account, token, amount },
        ));
    }
}

/// What a read sees after a write: the written amount at the written key,
/// and exactly what it saw before at every other key.
pub proof fn lemma_balance_in_write(
    s: Seq<BalanceEntry>,
    account: u64,
    token: u64,
    amount: u128,
    a2: u64,
    t2: u64,
)
    ensures
        balance_in(write_balance(s, account, token, amount), a2, t2) == if a2 == account && t2
            == token {
            amount
        } else {
            balance_in(s, a2, t2)
        },
        has_balance(write_balance(s, account, token, amount), a2, t2) == ((a2 == account && t2
            == token) || has_balance(s, a2, t2)),
    decreases s.len(),
{
    let w = write_balance(s, account, token, amount);
    if s.len() == 0 {
        assert(w.drop_first() =~= Seq::<BalanceEntry>::empty());
        assert(balance_in(w.drop_first(), a2, t2) == 0);
        assert(!has_balance(w.drop_first(), a2, t2));
    } else if bal_key_matches(s[0], account, token) {
        assert(w[0] == (BalanceEntry { account, token, amount }));
        assert(w.drop_first() =~= s.drop_first());
    } else {
        let rest = write_balance(s.drop_first(), account, token, amount);
        assert(w[0] == s[0]);
        assert(w.drop_first() =~= rest);
        lemma_balance_in_write(s.drop_first(), account, token, amount, a2, t2);
    }
}

/// What a write does to a token's balance sum: the written token's sum moves
/// by the difference between the new and the old amount; every other token's
/// sum stands.
pub proof fn lemma_token_sum_write(
    s: Seq<BalanceEntry>,
    account: u64,
    token: u64,
    amount: u128,
    t2: u64,
)
    ensures
        token_sum(write_balance(s, account, token, amount), t2) == token_sum(s, t2) + if t2
            == token {
            amount - balance_in(s, account, token)
        } else {
            0
        },
    decreases s.len(),
{
    let w = write_balance(s, account, token, amount);
    if s.len() == 0 {
        assert(w.drop_first() =~= Seq::<BalanceEntry>::empty());
        assert(token_sum(w.drop_first(), t2) == 0);
    } else if bal_key_matches(s[0], account, token) {
        assert(w[0] == (BalanceEntry { account, token, amount }));
        assert(w.drop_first() =~= s.drop_first());
    } else {
        let rest = write_balance(s.drop_first(), account, token, amount);
        assert(w[0] == s[0]);
        assert(w.drop_first() =~= rest);
        lemma_token_sum_write(s.drop_first(), account, token, amount, t2);
    }
}

/// A token's balance sum is never negative.
pub proof fn lemma_token_sum_nonneg(s: Seq<BalanceEntry>, token: u64)
    ensures
        token_sum(s, token) >= 0,
    decreases s.len(),
{
    if s.len() > 0 {
        lemma_token_sum_nonneg(s.drop_first(), token);
    }
}

/// No single balance exceeds its token's balance sum.
pub proof fn lemma_balance_le_token_sum(s: Seq<BalanceEntry>, account: u64, token: u64)
    ensures
        balance_in(s, account, token) <= token_sum(s, token),
    decreases s.len(),
{
    if s.len() > 0 {
        lemma_balance_le_token_sum(s.drop_first(), account, token);
        lemma_token_sum_nonneg(s.drop_first(), token);
    }
}

/// Two distinct accounts' balances of one token together stay within its
/// balance sum.
pub proof fn lemma_two_balances_le_token_sum(s: Seq<BalanceEntry>, a1: u64, a2: u64, token: u64)
    requires
        a1 != a2,
    ensures
        balance_in(s, a1, token) + balance_in(s, a2, token) <= token_sum(s, token),
    decreases s.len(),
{
    if s.len() > 0 {
        if bal_key_matches(s[0], a1, token) {
            lemma_balance_le_token_sum(s.drop_first(), a2, token);
        } else if bal_key_matches(s[0], a2, token) {
            lemma_balance_le_token_sum(s.drop_first(), a1, token);
        } else {
            lemma_two_balances_le_token_sum(s.drop_first(), a1, a2, token);
            lemma_token_sum_nonneg(s.drop_first(), token);
        }
    }
}

/// A store with no issuance cell for `token` reads zero for it.
pub proof fn lemma_issuance_in_not_found(s: Seq<IssuanceEntry>, token: u64)
    requires
        forall|j: int| 0 <= j < s.len() ==> s[j].token != token,
    ensures
        issuance_in(s, token) == 0,
    decreases s.len(),
{
    if s.len() > 0 {
        assert(forall|j: int|
            0 <= j < s.drop_first().len() ==> s.drop_first()[j] == s[j + 1]);
        lemma_issuance_in_not_found(s.drop_first(), token);
    }
}

/// Reading a token's issuance yields the amount of its first stored cell.
pub proof fn lemma_issuance_in_found(s: Seq<IssuanceEntry>, token: u64, i: int)
    requires
        0 <= i < s.len(),
        s[i].token == token,
        forall|j: int| 0 <= j < i ==> s[j].token != token,
    ensures
        issuance_in(s, token) == s[i].amount,
    decreases i,
{
    if i > 0 {
        assert(forall|j: int|
            0 <= j < s.drop_first().len() ==> s.drop_first()[j] == s[j + 1]);
        lemma_issuance_in_found(s.drop_first(), token, i - 1);
    }
}

/// Writing over the first stored issuance cell is an in-place update.
pub proof fn lemma_write_issuance_found(s: Seq<IssuanceEntry>, token: u64, amount: u128, i: int)
    requires
        0 <= i < s.len(),
        s[i].token == token,
        forall|j: int| 0 <= j < i ==> s[j].token != token,
    ensures
        write_issuance(s, token, amount) == s.update(i, IssuanceEntry { token, amount }),
    decreases i,
{
    if i > 0 {
        assert(forall|j: int|
            0 <= j < s.drop_first().len() ==> s.drop_first()[j] == s[j + 1]);
        lemma_write_issuance_found(s.drop_first(), token, amount, i - 1);
        assert(write_issuance(s, token, amount) =~= s.update(i, IssuanceEntry { token, amount }));
    } else {
        assert(write_issuance(s, token, amount) =~= s.update(0, IssuanceEntry { token, amount }));
    }
}

/// Writing the issuance of a token with no stored cell appends one.
pub proof fn lemma_write_issuance_not_found(s: Seq<IssuanceEntry>, token: u64, amount: u128)
    requires
        forall|j: int| 0 <= j < s.len() ==> s[j].token != token,
    ensures
        write_issuance(s, token, amount) == s.push(IssuanceEntry { token, amount }),
    decreases s.len(),
{
    if s.len() == 0 {
        assert(write_issuance(s, token, amount) =~= s.push(IssuanceEntry { token, amount }));
    } else {
        assert(forall|j: int|
            0 <= j < s.drop_first().len() ==> s.drop_first()[j] == s[j + 1]);
        lemma_write_issuance_not_found(s.drop_first(), token, amount);
        assert(write_issuance(s, token, amount) =~= s.push(IssuanceEntry { token, amount }));
    }
}

/// What an issuance read sees after an issuance write.
pub proof fn lemma_issuance_in_write(s: Seq<IssuanceEntry>, token: u64, amount: u128, t2: u64)
    ensures
        issuance_in(write_issuance(s, token, amount), t2) == if t2 == token {
            amount
        } else {
            issuance_in(s, t2)
        },
    decreases s.len(),
{
    let w = write_issuance(s, token, amount);
    if s.len() == 0 {
        assert(w.drop_first() =~= Seq::<IssuanceEntry>::empty());
        assert(issuance_in(w.drop_first(), t2) == 0);
    } else if s[0].token == token {
        assert(w[0] == (IssuanceEntry { token, amount }));
        assert(w.drop_first() =~= s.drop_first());
    } else {
        let rest = write_issuance(s.drop_first(), token, amount);
        assert(w[0] == s[0]);
        assert(w.drop_first() =~= rest);
        lemma_issuance_in_write(s.drop_first(), token, amount, t2);
    }
}

} // verus!
