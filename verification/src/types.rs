//! Core data model of the prediction-market ledger: events, outcomes, bets,
//! their well-formedness invariants, and the closed error enumeration.

use vstd::prelude::*;

verus! {

/// A 32-byte opaque, equality-comparable public identifier.
pub type Pubkey = [u8; 32];

/// Lifecycle of a prediction event.  `Active` is the initial state; the other
/// three are terminal.
#[derive(Clone, Copy, PartialEq, Eq, Structural, Debug)]
pub enum EventStatus {
    Active,
    Closed,
    Resolved,
    Cancelled,
}

/// Side of a wager: `BUY` stakes tokens on an outcome, `SELL` reduces a stake.
#[derive(Clone, Copy, PartialEq, Eq, Structural, Debug)]
pub enum BetType {
    SELL,
    BUY,
}

/// One error kind per way a handler can refuse a call; a handler that fails
/// leaves every record unchanged.
#[derive(Clone, Copy, PartialEq, Eq, Structural, Debug)]
pub enum PredictionMarketError {
    Unauthorized,
    DuplicateEvent,
    EventNotFound,
    InvalidOutcome,
    EventNotActive,
    EventAlreadyResolved,
    EventNotResolved,
    InsufficientFunds,
    SupplyExceeded,
    AccountAlreadyInitialized,
    IllegalOwner,
    DecodeError,
    EncodeError,
}

/// A single wager record from one identity on one outcome.
#[derive(Clone, Copy)]
pub struct Bet {
    pub user: Pubkey,
    pub event_id: [u8; 32],
    pub outcome_id: u8,
    pub amount: u64,
    pub timestamp: u64,
    pub bet_type: BetType,
    /// Set once the bet has been paid out, so a repeat claim yields nothing.
    pub claimed: bool,
}

/// The wager history of one identity on one outcome, in insertion order.
pub struct BetsEntry {
    pub user: Pubkey,
    pub bets: Vec<Bet>,
}

/// One possible result of an event, aggregating all bets placed on it.  The
/// per-bettor histories form an ordered map: keys unique, insertion order kept.
pub struct Outcome {
    pub id: u8,
    pub total_amount: u64,
    pub bets: Vec<BetsEntry>,
}

/// A prediction market with mutually exclusive outcomes and one shared pool.
pub struct PredictionEvent {
    pub unique_id: [u8; 32],
    pub creator: Pubkey,
    pub expiry_timestamp: u64,
    pub outcomes: Vec<Outcome>,
    pub total_pool_amount: u64,
    pub status: EventStatus,
    pub winning_outcome: Option<u8>,
}

/// The top-level persisted aggregate: every event ever created, in creation
/// order; events are never removed, only marked terminal.
pub struct Predictions {
    pub total_predictions: u32,
    pub predictions: Vec<PredictionEvent>,
}

/// Decoded parameters of a create-event instruction.
pub struct PredictionEventParams {
    pub unique_id: [u8; 32],
    pub expiry_timestamp: u64,
    pub num_outcomes: u8,
}

/// Decoded parameters of a close-event instruction.
pub struct ClosePredictionEventParams {
    pub unique_id: [u8; 32],
}

/// Decoded parameters of a place-bet instruction.
pub struct BetOnPredictionEventParams {
    pub unique_id: [u8; 32],
    pub outcome_id: u8,
    pub amount: u64,
    pub side: BetType,
}

/// Decoded parameters of a mint-tokens or burn-tokens instruction.
pub struct MintTokenParams {
    pub amount: u64,
}

/// Sum of `total_amount` over a sequence of outcomes.
pub open spec fn outcome_total_sum(outcomes: Seq<Outcome>) -> int
    decreases outcomes.len(),
{
    if outcomes.len() == 0 {
        0
    } else {
        outcome_total_sum(outcomes.drop_last()) + outcomes.last().total_amount
    }
}

/// Sum of `total_pool_amount` over a sequence of events.
pub open spec fn pool_total(events: Seq<PredictionEvent>) -> int
    decreases events.len(),
{
    if events.len() == 0 {
        0
    } else {
        pool_total(events.drop_last()) + events.last().total_pool_amount
    }
}

/// The per-bettor histories of an outcome have pairwise distinct keys.
pub open spec fn entry_users_unique(entries: Seq<BetsEntry>) -> bool {
    forall|i: int, j: int|
        0 <= i < j < entries.len() ==> entries[i].user@ != entries[j].user@
}

/// The wager history of `user` on an outcome: the bets of its row, in
/// insertion order, or the empty history when it has no row.
pub open spec fn bets_of(entries: Seq<BetsEntry>, user: Seq<u8>) -> Seq<Bet>
    decreases entries.len(),
{
    if entries.len() == 0 {
        Seq::empty()
    } else if entries[0].user@ == user {
        entries[0].bets@
    } else {
        bets_of(entries.drop_first(), user)
    }
}

/// Whether `user` has a row among the per-bettor histories.
pub open spec fn has_bets_entry(entries: Seq<BetsEntry>, user: Seq<u8>) -> bool {
    exists|i: int| 0 <= i < entries.len() && entries[i].user@ == user
}

/// In a history table with unique keys, the row holding `user` gives its bets.
pub proof fn lemma_bets_of_at_index(entries: Seq<BetsEntry>, i: int)
    requires
        entry_users_unique(entries),
        0 <= i < entries.len(),
    ensures
        bets_of(entries, entries[i].user@) == entries[i].bets@,
    decreases entries.len(),
{
    if i > 0 {
        assert(entries[0].user@ != entries[i].user@);
        lemma_bets_of_at_index(entries.drop_first(), i - 1);
    }
}

/// A user without a row has an empty history.
pub proof fn lemma_bets_of_absent(entries: Seq<BetsEntry>, user: Seq<u8>)
    requires
        !has_bets_entry(entries, user),
    ensures
        bets_of(entries, user) == Seq::<Bet>::empty(),
    decreases entries.len(),
{
    if entries.len() > 0 {
        assert(entries[0].user@ != user);
        assert(forall|j: int|
            0 <= j < entries.drop_first().len() ==> (#[trigger] entries.drop_first()[j])
                == entries[j + 1]);
        lemma_bets_of_absent(entries.drop_first(), user);
    }
}

/// Updating row `i` in place changes only the history of its key.
pub proof fn lemma_bets_of_update(entries: Seq<BetsEntry>, i: int, e: BetsEntry, u: Seq<u8>)
    requires
        0 <= i < entries.len(),
        e.user@ == entries[i].user@,
        u != entries[i].user@,
    ensures
        bets_of(entries.update(i, e), u) == bets_of(entries, u),
    decreases entries.len(),
{
    let t = entries.update(i, e);
    if i == 0 {
        assert(t.drop_first() =~= entries.drop_first());
    } else {
        if entries[0].user@ == u {
        } else {
            assert(t.drop_first() =~= entries.drop_first().update(i - 1, e));
            lemma_bets_of_update(entries.drop_first(), i - 1, e, u);
        }
    }
}

/// Appending a row for a fresh key leaves every other history unchanged and
/// gives the new key the appended history.
pub proof fn lemma_bets_of_push(entries: Seq<BetsEntry>, e: BetsEntry, u: Seq<u8>)
    ensures
        u != e.user@ ==> bets_of(entries.push(e), u) == bets_of(entries, u),
        !has_bets_entry(entries, e.user@) ==> bets_of(entries.push(e), e.user@) == e.bets@,
    decreases entries.len(),
{
    let t = entries.push(e);
    if entries.len() == 0 {
        assert(t.drop_first() =~= Seq::<BetsEntry>::empty());
        assert(t[0] == e);
        assert(bets_of(Seq::<BetsEntry>::empty(), u) == Seq::<Bet>::empty());
        if u != e.user@ {
            assert(bets_of(t, u) == bets_of(t.drop_first(), u));
        }
    } else {
        assert(t[0] == entries[0]);
        assert(t.drop_first() =~= entries.drop_first().push(e));
        if !has_bets_entry(entries, e.user@) {
            assert(entries[0].user@ != e.user@);
            assert(!has_bets_entry(entries.drop_first(), e.user@)) by {
                if has_bets_entry(entries.drop_first(), e.user@) {
                    let j = choose|j: int|
                        0 <= j < entries.drop_first().len() && entries.drop_first()[j].user@
                            == e.user@;
                    assert(entries[j + 1].user@ == e.user@);
                }
            }
        }
        lemma_bets_of_push(entries.drop_first(), e, u);
        lemma_bets_of_push(entries.drop_first(), e, e.user@);
    }
}

/// An outcome is well formed at position `idx` of its event: its id is its
/// index, and its per-bettor map has unique keys.
pub open spec fn outcome_wf(o: Outcome, idx: int) -> bool {
    &&& o.id as int == idx
    &&& entry_users_unique(o.bets@)
}

/// Well-formedness of a single event: outcome ids are dense `0..n`, the pool
/// equals the sum of the outcome totals, and the winning outcome is recorded
/// exactly when the event is resolved, and is then a valid outcome id.
pub open spec fn event_wf(e: PredictionEvent) -> bool {
    &&& e.outcomes@.len() <= 255
    &&& forall|i: int| 0 <= i < e.outcomes@.len() ==> outcome_wf(#[trigger] e.outcomes@[i], i)
    &&& e.total_pool_amount as int == outcome_total_sum(e.outcomes@)
    &&& (e.status is Resolved <==> e.winning_outcome is Some)
    &&& (e.winning_outcome is Some ==> (e.winning_outcome->0 as int) < e.outcomes@.len())
}

/// Event identifiers are pairwise distinct across the aggregate.
pub open spec fn event_ids_unique(events: Seq<PredictionEvent>) -> bool {
    forall|i: int, j: int|
        0 <= i < j < events.len() ==> events[i].unique_id@ != events[j].unique_id@
}

/// Well-formedness of the whole aggregate.
pub open spec fn predictions_wf(p: Predictions) -> bool {
    &&& p.total_predictions as int == p.predictions@.len()
    &&& event_ids_unique(p.predictions@)
    &&& forall|i: int| 0 <= i < p.predictions@.len() ==> event_wf(#[trigger] p.predictions@[i])
}

/// Index of the event carrying `unique_id`, if any.
pub open spec fn spec_find_event(events: Seq<PredictionEvent>, unique_id: Seq<u8>) -> Option<int>
    decreases events.len(),
{
    if events.len() == 0 {
        None
    } else if events[0].unique_id@ == unique_id {
        Some(0)
    } else {
        match spec_find_event(events.drop_first(), unique_id) {
            Some(i) => Some(i + 1),
            None => None,
        }
    }
}

/// Whether some event of the aggregate carries `unique_id`.
pub open spec fn has_event(events: Seq<PredictionEvent>, unique_id: Seq<u8>) -> bool {
    exists|i: int| 0 <= i < events.len() && events[i].unique_id@ == unique_id
}

pub proof fn lemma_outcome_total_sum_update(s: Seq<Outcome>, i: int, o: Outcome)
    requires
        0 <= i < s.len(),
    ensures
        outcome_total_sum(s.update(i, o)) == outcome_total_sum(s) - s[i].total_amount + o.total_amount,
    decreases s.len(),
{
    let t = s.update(i, o);
    if i == s.len() - 1 {
        assert(t.drop_last() =~= s.drop_last());
    } else {
        lemma_outcome_total_sum_update(s.drop_last(), i, o);
        assert(t.drop_last() =~= s.drop_last().update(i, o));
    }
}

pub proof fn lemma_outcome_total_sum_push(s: Seq<Outcome>, o: Outcome)
    ensures
        outcome_total_sum(s.push(o)) == outcome_total_sum(s) + o.total_amount,
{
    assert(s.push(o).drop_last() =~= s);
}

pub proof fn lemma_outcome_total_sum_nonneg(s: Seq<Outcome>)
    ensures
        outcome_total_sum(s) >= 0,
    decreases s.len(),
{
    if s.len() > 0 {
        lemma_outcome_total_sum_nonneg(s.drop_last());
    }
}

/// Each outcome's total is bounded by the sum over all outcomes.
pub proof fn lemma_outcome_total_sum_bound(s: Seq<Outcome>, i: int)
    requires
        0 <= i < s.len(),
    ensures
        outcome_total_sum(s) >= s[i].total_amount,
        outcome_total_sum(s) >= 0,
    decreases s.len(),
{
    lemma_outcome_total_sum_nonneg(s);
    if i == s.len() - 1 {
        lemma_outcome_total_sum_nonneg(s.drop_last());
    } else {
        lemma_outcome_total_sum_bound(s.drop_last(), i);
    }
}

pub proof fn lemma_pool_total_update(s: Seq<PredictionEvent>, i: int, e: PredictionEvent)
    requires
        0 <= i < s.len(),
    ensures
        pool_total(s.update(i, e)) == pool_total(s) - s[i].total_pool_amount + e.total_pool_amount,
    decreases s.len(),
{
    let t = s.update(i, e);
    if i == s.len() - 1 {
        assert(t.drop_last() =~= s.drop_last());
    } else {
        lemma_pool_total_update(s.drop_last(), i, e);
        assert(t.drop_last() =~= s.drop_last().update(i, e));
    }
}

pub proof fn lemma_pool_total_push(s: Seq<PredictionEvent>, e: PredictionEvent)
    ensures
        pool_total(s.push(e)) == pool_total(s) + e.total_pool_amount,
{
    assert(s.push(e).drop_last() =~= s);
}

pub proof fn lemma_pool_total_nonneg(s: Seq<PredictionEvent>)
    ensures
        pool_total(s) >= 0,
    decreases s.len(),
{
    if s.len() > 0 {
        lemma_pool_total_nonneg(s.drop_last());
    }
}

/// Each event's pool is bounded by the sum over all events.
pub proof fn lemma_pool_total_bound(s: Seq<PredictionEvent>, i: int)
    requires
        0 <= i < s.len(),
    ensures
        pool_total(s) >= s[i].total_pool_amount,
        pool_total(s) >= 0,
    decreases s.len(),
{
    lemma_pool_total_nonneg(s);
    if i == s.len() - 1 {
        lemma_pool_total_nonneg(s.drop_last());
    } else {
        lemma_pool_total_bound(s.drop_last(), i);
    }
}

/// Compare two 32-byte identifiers.
pub fn id_eq(a: &[u8; 32], b: &[u8; 32]) -> (r: bool)
    ensures
        r == (a@ == b@),
{
    let mut i: usize = 0;
    while i < 32
        invariant
            0 <= i <= 32,
            forall|k: int| 0 <= k < i ==> a@[k] == b@[k],
        decreases 32 - i,
    {
        if a[i] != b[i] {
            assert(a@ != b@);
            return false;
        }
        i += 1;
    }
    proof {
        assert(a@ =~= b@);
    }
    true
}

} // verus!
