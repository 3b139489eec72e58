//! Executable validators: decide the well-formedness invariants of decoded
//! records, so that only consistent state ever enters the ledgers.

use vstd::prelude::*;
use crate::mint::{
    balance_users_unique, balances_sum, metadata_keys_unique, mint_wf, BalanceEntry, MetadataEntry,
    TokenMintDetails,
};
use crate::types::{
    entry_users_unique, event_ids_unique, event_wf, id_eq, outcome_total_sum, outcome_wf,
    predictions_wf, BetsEntry, Outcome, PredictionEvent, Predictions,
};

verus! {

/// Compare two byte strings.
fn bytes_eq(a: &Vec<u8>, b: &Vec<u8>) -> (r: bool)
    ensures
        r == (a@ == b@),
{
    let n = a.len();
    if n != b.len() {
        proof {
            assert(a@ != b@);
        }
        return false;
    }
    let mut i: usize = 0;
    while i < n
        invariant
            0 <= i <= n,
            n == a@.len(),
            n == b@.len(),
            forall|k: int| 0 <= k < i ==> a@[k] == b@[k],
        decreases n - i,
    {
        if a[i] != b[i] {
            assert(a@ != b@);
            return false;
        }
        i += 1;
    }
    proof {
        assert(a@ =~= b@);
    }
    true
}

/// Decide `entry_users_unique`.
fn check_entries_unique(entries: &Vec<BetsEntry>) -> (r: bool)
    ensures
        r == entry_users_unique(entries@),
{
    let n = entries.len();
    let mut i: usize = 0;
    while i < n
        invariant
            0 <= i <= n,
            n == entries@.len(),
            forall|a: int, b: int|
                0 <= a < b < entries@.len() && a < i ==> entries@[a].user@ != entries@[b].user@,
        decreases n - i,
    {
        let mut j: usize = i + 1;
        while j < n
            invariant
                i < j <= n,
                i < n,
                n == entries@.len(),
                forall|b: int| i < b < j ==> entries@[i as int].user@ != entries@[b].user@,
            decreases n - j,
        {
            if id_eq(&entries[i].user, &entries[j].user) {
                assert(!entry_users_unique(entries@));
                return false;
            }
            j += 1;
        }
        i += 1;
    }
    true
}

/// Decide `event_ids_unique`.
fn check_event_ids_unique(events: &Vec<PredictionEvent>) -> (r: bool)
    ensures
        r == event_ids_unique(events@),
{
    let n = events.len();
    let mut i: usize = 0;
    while i < n
        invariant
            0 <= i <= n,
            n == events@.len(),
            forall|a: int, b: int|
                0 <= a < b < events@.len() && a < i ==> events@[a].unique_id@
                    != events@[b].unique_id@,
        decreases n - i,
    {
        let mut j: usize = i + 1;
        while j < n
            invariant
                i < j <= n,
                i < n,
                n == events@.len(),
                forall|b: int| i < b < j ==> events@[i as int].unique_id@ != events@[b].unique_id@,
            decreases n - j,
        {
            if id_eq(&events[i].unique_id, &events[j].unique_id) {
                assert(!event_ids_unique(events@));
                return false;
            }
            j += 1;
        }
        i += 1;
    }
    true
}

/// Decide `event_wf`.
fn check_event_wf(e: &PredictionEvent) -> (r: bool)
    ensures
        r == event_wf(*e),
{
    let n = e.outcomes.len();
    if n > 255 {
        return false;
    }
    let mut i: usize = 0;
    let mut sum: u128 = 0;
    while i < n
        invariant
            0 <= i <= n,
            n == e.outcomes@.len(),
            n <= 255,
            sum as int == outcome_total_sum(e.outcomes@.take(i as int)),
            sum as int <= (i as int) * (u64::MAX as int),
            forall|k: int| 0 <= k < i ==> outcome_wf(#[trigger] e.outcomes@[k], k),
        decreases n - i,
    {
        proof {
            assert(e.outcomes@.take(i + 1).drop_last() =~= e.outcomes@.take(i as int));
            assert(e.outcomes@.take(i + 1).last() == e.outcomes@[i as int]);
            vstd::arithmetic::mul::lemma_mul_inequality(i as int, 255, u64::MAX as int);
        }
        if e.outcomes[i].id as usize != i {
            assert(!outcome_wf(e.outcomes@[i as int], i as int));
            return false;
        }
        if !check_entries_unique(&e.outcomes[i].bets) {
            assert(!outcome_wf(e.outcomes@[i as int], i as int));
            return false;
        }
        sum = sum + e.outcomes[i].total_amount as u128;
        i += 1;
    }
    proof {
        assert(e.outcomes@.take(n as int) =~= e.outcomes@);
    }
    if sum != e.total_pool_amount as u128 {
        return false;
    }
    let is_resolved = matches!(e.status, crate::types::EventStatus::Resolved);
    let winning_ok = match e.winning_outcome {
        Some(w) => is_resolved && (w as usize) < n,
        None => !is_resolved,
    };
    winning_ok
}

/// Decide `predictions_wf`.
pub fn check_predictions_wf(p: &Predictions) -> (r: bool)
    ensures
        r == predictions_wf(*p),
{
    let n = p.predictions.len();
    if !(p.total_predictions as usize == n) {
        return false;
    }
    if !check_event_ids_unique(&p.predictions) {
        return false;
    }
    let mut i: usize = 0;
    while i < n
        invariant
            0 <= i <= n,
            n == p.predictions@.len(),
            p.total_predictions as int == n as int,
            event_ids_unique(p.predictions@),
            forall|k: int| 0 <= k < i ==> event_wf(#[trigger] p.predictions@[k]),
        decreases n - i,
    {
        if !check_event_wf(&p.predictions[i]) {
            return false;
        }
        i += 1;
    }
    true
}

/// Decide `balance_users_unique`.
fn check_balances_unique(entries: &Vec<BalanceEntry>) -> (r: bool)
    ensures
        r == balance_users_unique(entries@),
{
    let n = entries.len();
    let mut i: usize = 0;
    while i < n
        invariant
            0 <= i <= n,
            n == entries@.len(),
            forall|a: int, b: int|
                0 <= a < b < entries@.len() && a < i ==> entries@[a].user@ != entries@[b].user@,
        decreases n - i,
    {
        let mut j: usize = i + 1;
        while j < n
            invariant
                i < j <= n,
                i < n,
                n == entries@.len(),
                forall|b: int| i < b < j ==> entries@[i as int].user@ != entries@[b].user@,
            decreases n - j,
        {
            if id_eq(&entries[i].user, &entries[j].user) {
                assert(!balance_users_unique(entries@));
                return false;
            }
            j += 1;
        }
        i += 1;
    }
    true
}

/// Decide `metadata_keys_unique`.
fn check_metadata_unique(entries: &Vec<MetadataEntry>) -> (r: bool)
    ensures
        r == metadata_keys_unique(entries@),
{
    let n = entries.len();
    let mut i: usize = 0;
    while i < n
        invariant
            0 <= i <= n,
            n == entries@.len(),
            forall|a: int, b: int|
                0 <= a < b < entries@.len() && a < i ==> entries@[a].key@ != entries@[b].key@,
        decreases n - i,
    {
        let mut j: usize = i + 1;
        while j < n
            invariant
                i < j <= n,
                i < n,
                n == entries@.len(),
                forall|b: int| i < b < j ==> entries@[i as int].key@ != entries@[b].key@,
            decreases n - j,
        {
            if bytes_eq(&entries[i].key, &entries[j].key) {
                assert(!metadata_keys_unique(entries@));
                return false;
            }
            j += 1;
        }
        i += 1;
    }
    true
}

/// Decide `mint_wf`.
pub fn check_mint_wf(t: &TokenMintDetails) -> (r: bool)
    ensures
        r == mint_wf(*t),
{
    if !check_balances_unique(&t.balances) {
        return false;
    }
    if !check_metadata_unique(&t.token_metadata) {
        return false;
    }
    if t.circulating_supply > t.supply {
        return false;
    }
    let n = t.balances.len();
    let mut i: usize = 0;
    let mut sum: u128 = 0;
    while i < n
        invariant
            0 <= i <= n,
            n == t.balances@.len(),
            sum as int == balances_sum(t.balances@.take(i as int)),
            sum as int <= (i as int) * (u64::MAX as int),
        decreases n - i,
    {
        proof {
            assert(t.balances@.take(i + 1).drop_last() =~= t.balances@.take(i as int));
            assert(t.balances@.take(i + 1).last() == t.balances@[i as int]);
            vstd::arithmetic::mul::lemma_mul_inequality(i as int, u64::MAX as int, u64::MAX as int);
        }
        sum = sum + t.balances[i].amount as u128;
        i += 1;
    }
    proof {
        assert(t.balances@.take(n as int) =~= t.balances@);
    }
    sum <= t.circulating_supply as u128
}

} // verus!
