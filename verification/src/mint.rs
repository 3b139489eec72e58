//! The fungible-token ledger: a mint record with a fixed supply cap and a
//! per-identity balance table, mutated by `initialize_mint`, `mint_tokens`
//! and `burn_tokens`.

use vstd::prelude::*;
use crate::types::{PredictionMarketError, Pubkey};

verus! {

/// Lifecycle of a mint.
#[derive(Clone, Copy, PartialEq, Eq, Structural, Debug)]
pub enum MintStatus {
    Ongoing,
    Finished,
}

/// One row of the balance table: the holder and its amount, in the smallest
/// token denomination.
#[derive(Clone, Copy)]
pub struct BalanceEntry {
    pub user: Pubkey,
    pub amount: u64,
}

/// One row of the token metadata table.
pub struct MetadataEntry {
    pub key: Vec<u8>,
    pub value: [u8; 32],
}

/// Parameters of `initialize_mint`.
pub struct InitializeMintInput {
    pub owner: [u8; 32],
    pub supply: u64,
    pub ticker: Vec<u8>,
    pub decimals: u8,
}

impl InitializeMintInput {
    /// Bundle the parameters of a mint initialization.
    pub fn new(owner: [u8; 32], supply: u64, ticker: Vec<u8>, decimals: u8) -> (r: Self)
        ensures
            r.owner == owner,
            r.supply == supply,
            r.ticker == ticker,
            r.decimals == decimals,
    {
        InitializeMintInput { owner, supply, ticker, decimals }
    }
}

/// The persisted token-ledger record: owner, supply figures, display data,
/// and the balance table (an ordered map: keys unique, insertion order kept).
pub struct TokenMintDetails {
    pub owner: [u8; 32],
    pub status: MintStatus,
    pub supply: u64,
    pub circulating_supply: u64,
    pub ticker: Vec<u8>,
    pub decimals: u8,
    pub token_metadata: Vec<MetadataEntry>,
    pub balances: Vec<BalanceEntry>,
}

/// Sum of all balances of the table.
pub open spec fn balances_sum(entries: Seq<BalanceEntry>) -> int
    decreases entries.len(),
{
    if entries.len() == 0 {
        0
    } else {
        balances_sum(entries.drop_last()) + entries.last().amount
    }
}

/// The balance table has pairwise distinct keys.
pub open spec fn balance_users_unique(entries: Seq<BalanceEntry>) -> bool {
    forall|i: int, j: int|
        0 <= i < j < entries.len() ==> entries[i].user@ != entries[j].user@
}

/// The metadata table has pairwise distinct keys.
pub open spec fn metadata_keys_unique(entries: Seq<MetadataEntry>) -> bool {
    forall|i: int, j: int|
        0 <= i < j < entries.len() ==> entries[i].key@ != entries[j].key@
}

/// Balance of `user`: the amount of its row, or zero when it has none.
pub open spec fn spec_balance_of(entries: Seq<BalanceEntry>, user: Seq<u8>) -> int
    decreases entries.len(),
{
    if entries.len() == 0 {
        0
    } else if entries[0].user@ == user {
        entries[0].amount as int
    } else {
        spec_balance_of(entries.drop_first(), user)
    }
}

/// Whether `user` has a row in the balance table.
pub open spec fn has_balance_entry(entries: Seq<BalanceEntry>, user: Seq<u8>) -> bool {
    exists|i: int| 0 <= i < entries.len() && entries[i].user@ == user
}

/// Well-formedness of the token ledger: unique table keys, no more than the
/// whole circulation held in balances, and circulation within the supply cap.
pub open spec fn mint_wf(t: TokenMintDetails) -> bool {
    &&& balance_users_unique(t.balances@)
    &&& metadata_keys_unique(t.token_metadata@)
    &&& balances_sum(t.balances@) <= t.circulating_supply
    &&& t.circulating_supply <= t.supply
}

/// All fields of the ledger but the balance table and the circulating supply
/// are the same in `a` and `b`.
pub open spec fn mint_frame(a: TokenMintDetails, b: TokenMintDetails) -> bool {
    &&& a.owner@ == b.owner@
    &&& a.status == b.status
    &&& a.supply == b.supply
    &&& a.ticker@ == b.ticker@
    &&& a.decimals == b.decimals
    &&& a.token_metadata@ == b.token_metadata@
}

/// Every balance row of `a` keeps its value in `b`, except the row of `user`.
pub open spec fn balances_except(a: Seq<BalanceEntry>, b: Seq<BalanceEntry>, user: Seq<u8>) -> bool {
    forall|u: Seq<u8>| u != user ==> #[trigger] spec_balance_of(b, u) == spec_balance_of(a, u)
}

proof fn lemma_balances_sum_update(entries: Seq<BalanceEntry>, i: int, e: BalanceEntry)
    requires
        0 <= i < entries.len(),
    ensures
        balances_sum(entries.update(i, e)) == balances_sum(entries) - entries[i].amount + e.amount,
    decreases entries.len(),
{
    let t = entries.update(i, e);
    if i == entries.len() - 1 {
        assert(t.drop_last() =~= entries.drop_last());
    } else {
        lemma_balances_sum_update(entries.drop_last(), i, e);
        assert(t.drop_last() =~= entries.drop_last().update(i, e));
    }
}

proof fn lemma_balances_sum_push(entries: Seq<BalanceEntry>, e: BalanceEntry)
    ensures
        balances_sum(entries.push(e)) == balances_sum(entries) + e.amount,
{
    assert(entries.push(e).drop_last() =~= entries);
}

/// Every row's amount is bounded by the sum of the table.
proof fn lemma_balances_sum_bound(entries: Seq<BalanceEntry>, i: int)
    requires
        0 <= i < entries.len(),
    ensures
        balances_sum(entries) >= entries[i].amount,
        balances_sum(entries) >= 0,
    decreases entries.len(),
{
    lemma_balances_sum_nonneg(entries);
    if i == entries.len() - 1 {
        lemma_balances_sum_nonneg(entries.drop_last());
    } else {
        lemma_balances_sum_bound(entries.drop_last(), i);
    }
}

proof fn lemma_balances_sum_nonneg(entries: Seq<BalanceEntry>)
    ensures
        balances_sum(entries) >= 0,
    decreases entries.len(),
{
    if entries.len() > 0 {
        lemma_balances_sum_nonneg(entries.drop_last());
    }
}

/// In a table with unique keys, the row holding `user` gives its balance.
proof fn lemma_balance_of_at_index(entries: Seq<BalanceEntry>, i: int)
    requires
        balance_users_unique(entries),
        0 <= i < entries.len(),
    ensures
        spec_balance_of(entries, entries[i].user@) == entries[i].amount,
    decreases entries.len(),
{
    if i > 0 {
        assert(entries[0].user@ != entries[i].user@);
        lemma_balance_of_at_index(entries.drop_first(), i - 1);
    }
}

/// A user without a row has balance zero.
proof fn lemma_balance_of_absent(entries: Seq<BalanceEntry>, user: Seq<u8>)
    requires
        !has_balance_entry(entries, user),
    ensures
        spec_balance_of(entries, user) == 0,
    decreases entries.len(),
{
    if entries.len() > 0 {
        assert(entries[0].user@ != user);
        assert(forall|j: int|
            0 <= j < entries.drop_first().len() ==> (#[trigger] entries.drop_first()[j]) == entries[j + 1]);
        lemma_balance_of_absent(entries.drop_first(), user);
    }
}

/// Updating row `i` in place changes only the balance of its key.
proof fn lemma_balance_of_update(entries: Seq<BalanceEntry>, i: int, e: BalanceEntry, u: Seq<u8>)
    requires
        0 <= i < entries.len(),
        e.user@ == entries[i].user@,
        u != entries[i].user@,
    ensures
        spec_balance_of(entries.update(i, e), u) == spec_balance_of(entries, u),
    decreases entries.len(),
{
    let t = entries.update(i, e);
    if entries.len() > 0 {
        if i == 0 {
            assert(t.drop_first() =~= entries.drop_first());
        } else {
            if entries[0].user@ == u {
            } else {
                assert(t.drop_first() =~= entries.drop_first().update(i - 1, e));
                lemma_balance_of_update(entries.drop_first(), i - 1, e, u);
            }
        }
    }
}

/// Appending a row for a fresh key leaves every other balance unchanged and
/// gives the new key the appended amount.
proof fn lemma_balance_of_push(entries: Seq<BalanceEntry>, e: BalanceEntry, u: Seq<u8>)
    ensures
        u != e.user@ ==> spec_balance_of(entries.push(e), u) == spec_balance_of(entries, u),
        !has_balance_entry(entries, e.user@) ==> spec_balance_of(entries.push(e), e.user@)
            == e.amount,
    decreases entries.len(),
{
    let t = entries.push(e);
    if entries.len() == 0 {
        assert(t.drop_first() =~= Seq::<BalanceEntry>::empty());
        assert(t[0] == e);
        assert(spec_balance_of(Seq::<BalanceEntry>::empty(), u) == 0);
        assert(spec_balance_of(entries, u) == 0);
        if u != e.user@ {
            assert(spec_balance_of(t, u) == spec_balance_of(t.drop_first(), u));
        }
    } else {
        assert(t[0] == entries[0]);
        assert(t.drop_first() =~= entries.drop_first().push(e));
        if !has_balance_entry(entries, e.user@) {
            assert(entries[0].user@ != e.user@);
            assert(!has_balance_entry(entries.drop_first(), e.user@)) by {
                if has_balance_entry(entries.drop_first(), e.user@) {
                    let j = choose|j: int|
                        0 <= j < entries.drop_first().len() && entries.drop_first()[j].user@
                            == e.user@;
                    assert(entries[j + 1].user@ == e.user@);
                }
            }
        }
        lemma_balance_of_push(entries.drop_first(), e, u);
        lemma_balance_of_push(entries.drop_first(), e, e.user@);
    }
}

proof fn lemma_balances_sum_drop_first(entries: Seq<BalanceEntry>)
    requires
        entries.len() > 0,
    ensures
        balances_sum(entries) == entries[0].amount + balances_sum(entries.drop_first()),
    decreases entries.len(),
{
    if entries.len() == 1 {
        assert(entries.drop_first() =~= Seq::<BalanceEntry>::empty());
        assert(entries.drop_last() =~= Seq::<BalanceEntry>::empty());
    } else {
        lemma_balances_sum_drop_first(entries.drop_last());
        assert(entries.drop_last().drop_first() =~= entries.drop_first().drop_last());
        assert(entries.drop_last()[0] == entries[0]);
        assert(entries.drop_first().last() == entries.last());
    }
}

/// A prefix of the balance table sums to no more than the whole table.
pub proof fn lemma_balances_sum_take_le(entries: Seq<BalanceEntry>, i: int)
    requires
        0 <= i <= entries.len(),
    ensures
        balances_sum(entries.take(i)) <= balances_sum(entries),
    decreases entries.len(),
{
    if i == entries.len() {
        assert(entries.take(i) =~= entries);
    } else {
        assert(entries.take(i) =~= entries.drop_last().take(i));
        lemma_balances_sum_take_le(entries.drop_last(), i);
    }
}

/// No single balance exceeds the sum of the table.
pub proof fn lemma_balance_of_le_sum(entries: Seq<BalanceEntry>, user: Seq<u8>)
    ensures
        0 <= spec_balance_of(entries, user),
        spec_balance_of(entries, user) <= balances_sum(entries),
        balances_sum(entries) >= 0,
    decreases entries.len(),
{
    lemma_balances_sum_nonneg(entries);
    if entries.len() > 0 {
        lemma_balances_sum_drop_first(entries);
        lemma_balance_of_le_sum(entries.drop_first(), user);
    }
}

/// Balance of `user`: the amount of its row, or zero when it has none.
pub fn balance_of(t: &TokenMintDetails, user: &Pubkey) -> (r: u64)
    requires
        balance_users_unique(t.balances@),
    ensures
        r as int == spec_balance_of(t.balances@, user@),
{
    match find_balance_index(&t.balances, user) {
        Some(i) => {
            proof {
                lemma_balance_of_at_index(t.balances@, i as int);
            }
            t.balances[i].amount
        },
        None => {
            proof {
                lemma_balance_of_absent(t.balances@, user@);
            }
            0
        },
    }
}

/// Find the row of `user` in the balance table.
fn find_balance_index(balances: &Vec<BalanceEntry>, user: &Pubkey) -> (r: Option<usize>)
    requires
        balance_users_unique(balances@),
    ensures
        match r {
            Some(i) => i < balances@.len() && balances@[i as int].user@ == user@,
            None => !has_balance_entry(balances@, user@),
        },
{
    let n = balances.len();
    let mut i: usize = 0;
    while i < n
        invariant
            0 <= i <= n,
            n == balances@.len(),
            forall|k: int| 0 <= k < i ==> balances@[k].user@ != user@,
        decreases n - i,
    {
        if crate::types::id_eq(&balances[i].user, user) {
            return Some(i);
        }
        i += 1;
    }
    None
}

/// The state relation of a successful `mint_tokens`: the target's balance
/// and the circulating supply both grow by exactly `amount`; nothing else
/// moves.  The table grows by at most the one row a first-time holder needs.
pub open spec fn mint_tokens_success(
    t0: TokenMintDetails,
    t1: TokenMintDetails,
    target: Seq<u8>,
    amount: u64,
) -> bool {
    &&& t1.balances@.len() <= t0.balances@.len() + 1
    &&& t1.circulating_supply == t0.circulating_supply + amount
    &&& spec_balance_of(t1.balances@, target) == spec_balance_of(t0.balances@, target) + amount
    &&& balances_except(t0.balances@, t1.balances@, target)
    &&& balances_sum(t1.balances@) == balances_sum(t0.balances@) + amount
    &&& mint_frame(t0, t1)
}

/// The state relation of a successful `burn_tokens`: only the target's
/// balance shrinks, by exactly `amount`; the circulating supply and the
/// table's shape stay.
pub open spec fn burn_tokens_success(
    t0: TokenMintDetails,
    t1: TokenMintDetails,
    target: Seq<u8>,
    amount: u64,
) -> bool {
    &&& t1.balances@.len() == t0.balances@.len()
    &&& t1.circulating_supply == t0.circulating_supply
    &&& spec_balance_of(t1.balances@, target) == spec_balance_of(t0.balances@, target) - amount
    &&& balances_except(t0.balances@, t1.balances@, target)
    &&& balances_sum(t1.balances@) == balances_sum(t0.balances@) - amount
    &&& mint_frame(t0, t1)
}

/// Credit `amount` to `target`, growing the circulating supply; rejected with
/// `SupplyExceeded` when the new circulation would pass the supply cap.
///
/// Relied-on shape of the result: on failure the ledger is untouched; on
/// success only the target's balance and the circulating supply grow, both by
/// exactly `amount`.
pub fn mint_tokens(t: &mut TokenMintDetails, target: &Pubkey, amount: u64) -> (r: Result<
    (),
    PredictionMarketError,
>)
    requires
        mint_wf(*old(t)),
    ensures
        mint_wf(*final(t)),
        mint_frame(*old(t), *final(t)),
        old(t).circulating_supply + amount > old(t).supply ==> {
            &&& r == Err::<(), PredictionMarketError>(PredictionMarketError::SupplyExceeded)
            &&& *final(t) == *old(t)
        },
        old(t).circulating_supply + amount <= old(t).supply ==> {
            &&& r == Ok::<(), PredictionMarketError>(())
            &&& mint_tokens_success(*old(t), *final(t), target@, amount)
        },
{
    if amount > t.supply - t.circulating_supply {
        return Err(PredictionMarketError::SupplyExceeded);
    }
    match find_balance_index(&t.balances, target) {
        Some(i) => {
            let e = t.balances[i];
            proof {
                lemma_balance_of_at_index(t.balances@, i as int);
                lemma_balances_sum_bound(t.balances@, i as int);
            }
            let new_e = BalanceEntry { user: e.user, amount: e.amount + amount };
            t.balances[i] = new_e;
            proof {
                lemma_balances_sum_update(old(t).balances@, i as int, new_e);
                lemma_balance_of_at_index(t.balances@, i as int);
                assert forall|u: Seq<u8>| u != target@ implies #[trigger] spec_balance_of(
                    t.balances@,
                    u,
                ) == spec_balance_of(old(t).balances@, u) by {
                    lemma_balance_of_update(old(t).balances@, i as int, new_e, u);
                }
                assert(t.balances@[i as int].user@ == target@);
                assert(spec_balance_of(t.balances@, target@) == e.amount + amount);
            }
        },
        None => {
            proof {
                lemma_balance_of_absent(t.balances@, target@);
            }
            let new_e = BalanceEntry { user: *target, amount };
            t.balances.push(new_e);
            proof {
                lemma_balances_sum_push(old(t).balances@, new_e);
                assert forall|u: Seq<u8>| u != target@ implies #[trigger] spec_balance_of(
                    t.balances@,
                    u,
                ) == spec_balance_of(old(t).balances@, u) by {
                    lemma_balance_of_push(old(t).balances@, new_e, u);
                }
                lemma_balance_of_push(old(t).balances@, new_e, target@);
                assert(balance_users_unique(t.balances@)) by {
                    assert(forall|k: int|
                        0 <= k < old(t).balances@.len() ==> (#[trigger] t.balances@[k])
                            == old(t).balances@[k]);
                }
            }
        },
    }
    t.circulating_supply = t.circulating_supply + amount;
    Ok(())
}

/// Debit `amount` from `target`; rejected with `InsufficientFunds` when the
/// balance cannot cover it, so no balance ever goes below zero.
pub fn burn_tokens(t: &mut TokenMintDetails, target: &Pubkey, amount: u64) -> (r: Result<
    (),
    PredictionMarketError,
>)
    requires
        mint_wf(*old(t)),
    ensures
        mint_wf(*final(t)),
        mint_frame(*old(t), *final(t)),
        final(t).circulating_supply == old(t).circulating_supply,
        spec_balance_of(old(t).balances@, target@) < amount ==> {
            &&& r == Err::<(), PredictionMarketError>(PredictionMarketError::InsufficientFunds)
            &&& *final(t) == *old(t)
        },
        spec_balance_of(old(t).balances@, target@) >= amount ==> {
            &&& r == Ok::<(), PredictionMarketError>(())
            &&& burn_tokens_success(*old(t), *final(t), target@, amount)
        },
{
    match find_balance_index(&t.balances, target) {
        Some(i) => {
            let e = t.balances[i];
            proof {
                lemma_balance_of_at_index(t.balances@, i as int);
            }
            if e.amount < amount {
                return Err(PredictionMarketError::InsufficientFunds);
            }
            let new_e = BalanceEntry { user: e.user, amount: e.amount - amount };
            t.balances[i] = new_e;
            proof {
                lemma_balances_sum_update(old(t).balances@, i as int, new_e);
                lemma_balances_sum_bound(old(t).balances@, i as int);
                lemma_balance_of_at_index(t.balances@, i as int);
                assert forall|u: Seq<u8>| u != target@ implies #[trigger] spec_balance_of(
                    t.balances@,
                    u,
                ) == spec_balance_of(old(t).balances@, u) by {
                    lemma_balance_of_update(old(t).balances@, i as int, new_e, u);
                }
            }
            Ok(())
        },
        None => {
            proof {
                lemma_balance_of_absent(t.balances@, target@);
            }
            if amount > 0 {
                return Err(PredictionMarketError::InsufficientFunds);
            }
            Ok(())
        },
    }
}

impl TokenMintDetails {
    /// A fresh ledger for `input`: nothing circulating, no balances.
    pub fn new(input: InitializeMintInput, status: MintStatus, token_metadata: Vec<MetadataEntry>)
        -> (r: Self)
        requires
            metadata_keys_unique(token_metadata@),
        ensures
            mint_wf(r),
            r.owner@ == input.owner@,
            r.status == status,
            r.supply == input.supply,
            r.circulating_supply == 0,
            r.ticker@ == input.ticker@,
            r.decimals == input.decimals,
            r.token_metadata@ == token_metadata@,
            r.balances@.len() == 0,
    {
        TokenMintDetails {
            owner: input.owner,
            status,
            supply: input.supply,
            circulating_supply: 0,
            ticker: input.ticker,
            decimals: input.decimals,
            token_metadata,
            balances: Vec::new(),
        }
    }
}

} // verus!
