//! Codec of the event-ledger records: bets, per-bettor histories, outcomes,
//! events, and the persisted `Predictions` aggregate.

use vstd::prelude::*;
use crate::codec::{
    lemma_parse_enc_u8, lemma_parse_enc_u64, lemma_parse_enc_vec, lemma_subrange_split, read_bool,
    read_bytes32, read_u8, read_u32, read_u64, read_vec, spec_enc_bool, spec_enc_u8, spec_enc_u32,
    spec_enc_u64, spec_enc_vec, spec_parse_bool, spec_parse_bytes32, spec_parse_u8, spec_parse_u32,
    spec_parse_u64, spec_parse_vec, view_seq, write_bool, write_bytes32, write_u8, write_u32,
    write_u64, write_vec, Codec,
};
use crate::types::{Bet, BetsEntry, BetType, EventStatus, Outcome, PredictionEvent, Predictions};

verus! {

// ---------------------------------------------------------------------------
// tag codecs
// ---------------------------------------------------------------------------
pub open spec fn status_tag(st: EventStatus) -> u8 {
    match st {
        EventStatus::Active => 0,
        EventStatus::Closed => 1,
        EventStatus::Resolved => 2,
        EventStatus::Cancelled => 3,
    }
}

pub open spec fn spec_enc_status(st: EventStatus) -> Seq<u8> {
    seq![status_tag(st)]
}

pub open spec fn spec_parse_status(s: Seq<u8>, pos: int) -> Option<(EventStatus, int)> {
    match spec_parse_u8(s, pos) {
        None => None,
        Some((x, p)) => if x == 0 {
            Some((EventStatus::Active, p))
        } else if x == 1 {
            Some((EventStatus::Closed, p))
        } else if x == 2 {
            Some((EventStatus::Resolved, p))
        } else if x == 3 {
            Some((EventStatus::Cancelled, p))
        } else {
            None
        },
    }
}

pub proof fn lemma_parse_enc_status(s: Seq<u8>, pos: int, st: EventStatus)
    requires
        0 <= pos,
        pos + 1 <= s.len(),
        s.subrange(pos, pos + 1) == spec_enc_status(st),
    ensures
        spec_parse_status(s, pos) == Some((st, pos + 1)),
{
    lemma_parse_enc_u8(s, pos, status_tag(st));
}

pub fn read_status(bytes: &Vec<u8>, pos: usize) -> (r: Option<(EventStatus, usize)>)
    requires
        pos <= bytes@.len(),
    ensures
        match r {
            Some((st, p)) => {
                &&& spec_parse_status(bytes@, pos as int) == Some((st, p as int))
                &&& p <= bytes@.len()
            },
            None => spec_parse_status(bytes@, pos as int) is None,
        },
{
    match read_u8(bytes, pos) {
        None => None,
        Some((x, p)) => {
            if x == 0 {
                Some((EventStatus::Active, p))
            } else if x == 1 {
                Some((EventStatus::Closed, p))
            } else if x == 2 {
                Some((EventStatus::Resolved, p))
            } else if x == 3 {
                Some((EventStatus::Cancelled, p))
            } else {
                None
            }
        },
    }
}

pub fn write_status(out: &mut Vec<u8>, st: EventStatus)
    ensures
        final(out)@ == old(out)@ + spec_enc_status(st),
{
    match st {
        EventStatus::Active => write_u8(out, 0),
        EventStatus::Closed => write_u8(out, 1),
        EventStatus::Resolved => write_u8(out, 2),
        EventStatus::Cancelled => write_u8(out, 3),
    }
}

pub open spec fn bet_type_tag(bt: BetType) -> u8 {
    match bt {
        BetType::SELL => 0,
        BetType::BUY => 1,
    }
}

pub open spec fn spec_enc_bet_type(bt: BetType) -> Seq<u8> {
    seq![bet_type_tag(bt)]
}

pub open spec fn spec_parse_bet_type(s: Seq<u8>, pos: int) -> Option<(BetType, int)> {
    match spec_parse_u8(s, pos) {
        None => None,
        Some((x, p)) => if x == 0 {
            Some((BetType::SELL, p))
        } else if x == 1 {
            Some((BetType::BUY, p))
        } else {
            None
        },
    }
}

pub proof fn lemma_parse_enc_bet_type(s: Seq<u8>, pos: int, bt: BetType)
    requires
        0 <= pos,
        pos + 1 <= s.len(),
        s.subrange(pos, pos + 1) == spec_enc_bet_type(bt),
    ensures
        spec_parse_bet_type(s, pos) == Some((bt, pos + 1)),
{
    lemma_parse_enc_u8(s, pos, bet_type_tag(bt));
}

pub fn read_bet_type(bytes: &Vec<u8>, pos: usize) -> (r: Option<(BetType, usize)>)
    requires
        pos <= bytes@.len(),
    ensures
        match r {
            Some((bt, p)) => {
                &&& spec_parse_bet_type(bytes@, pos as int) == Some((bt, p as int))
                &&& p <= bytes@.len()
            },
            None => spec_parse_bet_type(bytes@, pos as int) is None,
        },
{
    match read_u8(bytes, pos) {
        None => None,
        Some((x, p)) => {
            if x == 0 {
                Some((BetType::SELL, p))
            } else if x == 1 {
                Some((BetType::BUY, p))
            } else {
                None
            }
        },
    }
}

pub fn write_bet_type(out: &mut Vec<u8>, bt: BetType)
    ensures
        final(out)@ == old(out)@ + spec_enc_bet_type(bt),
{
    match bt {
        BetType::SELL => write_u8(out, 0),
        BetType::BUY => write_u8(out, 1),
    }
}

/// An optional outcome id: one tag byte, then the id when present.
pub open spec fn spec_enc_opt_u8(o: Option<u8>) -> Seq<u8> {
    match o {
        None => seq![0u8],
        Some(x) => seq![1u8, x],
    }
}

pub open spec fn spec_parse_opt_u8(s: Seq<u8>, pos: int) -> Option<(Option<u8>, int)> {
    match spec_parse_u8(s, pos) {
        None => None,
        Some((tag, p)) => if tag == 0 {
            Some((None::<u8>, p))
        } else if tag == 1 {
            match spec_parse_u8(s, p) {
                None => None,
                Some((x, p2)) => Some((Some(x), p2)),
            }
        } else {
            None
        },
    }
}

pub proof fn lemma_parse_enc_opt_u8(s: Seq<u8>, pos: int, o: Option<u8>)
    requires
        0 <= pos,
        pos + spec_enc_opt_u8(o).len() <= s.len(),
        s.subrange(pos, pos + spec_enc_opt_u8(o).len() as int) == spec_enc_opt_u8(o),
    ensures
        spec_parse_opt_u8(s, pos) == Some((o, pos + spec_enc_opt_u8(o).len() as int)),
{
    match o {
        None => {
            lemma_parse_enc_u8(s, pos, 0);
        },
        Some(x) => {
            assert(seq![1u8, x] =~= seq![1u8] + seq![x]);
            lemma_subrange_split(s, pos, seq![1u8], seq![x]);
            lemma_parse_enc_u8(s, pos, 1);
            lemma_parse_enc_u8(s, pos + 1, x);
        },
    }
}

pub fn read_opt_u8(bytes: &Vec<u8>, pos: usize) -> (r: Option<(Option<u8>, usize)>)
    requires
        pos <= bytes@.len(),
    ensures
        match r {
            Some((o, p)) => {
                &&& spec_parse_opt_u8(bytes@, pos as int) == Some((o, p as int))
                &&& p <= bytes@.len()
            },
            None => spec_parse_opt_u8(bytes@, pos as int) is None,
        },
{
    match read_u8(bytes, pos) {
        None => None,
        Some((tag, p)) => {
            if tag == 0 {
                Some((None, p))
            } else if tag == 1 {
                match read_u8(bytes, p) {
                    None => None,
                    Some((x, p2)) => Some((Some(x), p2)),
                }
            } else {
                None
            }
        },
    }
}

pub fn write_opt_u8(out: &mut Vec<u8>, o: &Option<u8>)
    ensures
        final(out)@ == old(out)@ + spec_enc_opt_u8(*o),
{
    match o {
        None => {
            write_u8(out, 0);
        },
        Some(x) => {
            write_u8(out, 1);
            write_u8(out, *x);
            proof {
                assert(old(out)@ + seq![1u8] + seq![*x] =~= old(out)@ + seq![1u8, *x]);
            }
        },
    }
}

// ---------------------------------------------------------------------------
// views
// ---------------------------------------------------------------------------
pub struct BetV {
    pub user: Seq<u8>,
    pub event_id: Seq<u8>,
    pub outcome_id: u8,
    pub amount: u64,
    pub timestamp: u64,
    pub bet_type: BetType,
    pub claimed: bool,
}

impl View for Bet {
    type V = BetV;

    open spec fn view(&self) -> BetV {
        BetV {
            user: self.user@,
            event_id: self.event_id@,
            outcome_id: self.outcome_id,
            amount: self.amount,
            timestamp: self.timestamp,
            bet_type: self.bet_type,
            claimed: self.claimed,
        }
    }
}

pub struct BetsEntryV {
    pub user: Seq<u8>,
    pub bets: Seq<BetV>,
}

impl View for BetsEntry {
    type V = BetsEntryV;

    open spec fn view(&self) -> BetsEntryV {
        BetsEntryV { user: self.user@, bets: view_seq(self.bets@) }
    }
}

pub struct OutcomeV {
    pub id: u8,
    pub total_amount: u64,
    pub bets: Seq<BetsEntryV>,
}

impl View for Outcome {
    type V = OutcomeV;

    open spec fn view(&self) -> OutcomeV {
        OutcomeV {
            id: self.id,
            total_amount: self.total_amount,
            bets: view_seq(self.bets@),
        }
    }
}

pub struct PredictionEventV {
    pub unique_id: Seq<u8>,
    pub creator: Seq<u8>,
    pub expiry_timestamp: u64,
    pub outcomes: Seq<OutcomeV>,
    pub total_pool_amount: u64,
    pub status: EventStatus,
    pub winning_outcome: Option<u8>,
}

impl View for PredictionEvent {
    type V = PredictionEventV;

    open spec fn view(&self) -> PredictionEventV {
        PredictionEventV {
            unique_id: self.unique_id@,
            creator: self.creator@,
            expiry_timestamp: self.expiry_timestamp,
            outcomes: view_seq(self.outcomes@),
            total_pool_amount: self.total_pool_amount,
            status: self.status,
            winning_outcome: self.winning_outcome,
        }
    }
}

pub struct PredictionsV {
    pub total_predictions: u32,
    pub predictions: Seq<PredictionEventV>,
}

impl View for Predictions {
    type V = PredictionsV;

    open spec fn view(&self) -> PredictionsV {
        PredictionsV {
            total_predictions: self.total_predictions,
            predictions: view_seq(self.predictions@),
        }
    }
}

// ---------------------------------------------------------------------------
// record codecs
// ---------------------------------------------------------------------------
impl Codec for Bet {
    open spec fn enc_wf(v: BetV) -> bool {
        &&& v.user.len() == 32
        &&& v.event_id.len() == 32
    }

    open spec fn enc(v: BetV) -> Seq<u8> {
        v.user + v.event_id + spec_enc_u8(v.outcome_id) + spec_enc_u64(v.amount) + spec_enc_u64(
            v.timestamp,
        ) + spec_enc_bet_type(v.bet_type) + spec_enc_bool(v.claimed)
    }

    open spec fn parse(s: Seq<u8>, pos: int) -> Option<(BetV, int)> {
        match spec_parse_bytes32(s, pos) {
            None => None,
            Some((user, p1)) => match spec_parse_bytes32(s, p1) {
                None => None,
                Some((event_id, p2)) => match spec_parse_u8(s, p2) {
                    None => None,
                    Some((outcome_id, p3)) => match spec_parse_u64(s, p3) {
                        None => None,
                        Some((amount, p4)) => match spec_parse_u64(s, p4) {
                            None => None,
                            Some((timestamp, p5)) => match spec_parse_bet_type(s, p5) {
                                None => None,
                                Some((bet_type, p6)) => match spec_parse_bool(s, p6) {
                                    None => None,
                                    Some((claimed, p7)) => Some(
                                        (
                                            BetV {
                                                user,
                                                event_id,
                                                outcome_id,
                                                amount,
                                                timestamp,
                                                bet_type,
                                                claimed,
                                            },
                                            p7,
                                        ),
                                    ),
                                },
                            },
                        },
                    },
                },
            },
        }
    }

    proof fn lemma_parse_enc(v: BetV, s: Seq<u8>, pos: int) {
        vstd::bytes::lemma_auto_spec_u64_to_from_le_bytes();
        let e1 = v.user;
        let e2 = v.event_id;
        let e3 = spec_enc_u8(v.outcome_id);
        let e4 = spec_enc_u64(v.amount);
        let e5 = spec_enc_u64(v.timestamp);
        let e6 = spec_enc_bet_type(v.bet_type);
        let e7 = spec_enc_bool(v.claimed);
        assert(Self::enc(v) =~= e1 + (e2 + (e3 + (e4 + (e5 + (e6 + e7))))));
        let p1 = pos + 32;
        let p2 = p1 + 32;
        let p3 = p2 + 1;
        let p4 = p3 + 8;
        let p5 = p4 + 8;
        let p6 = p5 + 1;
        let p7 = p6 + 1;
        lemma_subrange_split(s, pos, e1, e2 + (e3 + (e4 + (e5 + (e6 + e7)))));
        lemma_subrange_split(s, p1, e2, e3 + (e4 + (e5 + (e6 + e7))));
        lemma_subrange_split(s, p2, e3, e4 + (e5 + (e6 + e7)));
        lemma_subrange_split(s, p3, e4, e5 + (e6 + e7));
        lemma_subrange_split(s, p4, e5, e6 + e7);
        lemma_subrange_split(s, p5, e6, e7);
        lemma_parse_enc_u8(s, p2, v.outcome_id);
        crate::codec::lemma_parse_enc_u64(s, p3, v.amount);
        crate::codec::lemma_parse_enc_u64(s, p4, v.timestamp);
        lemma_parse_enc_bet_type(s, p5, v.bet_type);
        crate::codec::lemma_parse_enc_bool(s, p6, v.claimed);
    }

    fn read(bytes: &Vec<u8>, pos: usize) -> (r: Option<(Bet, usize)>) {
        let (user, p1) = match read_bytes32(bytes, pos) {
            None => {
                return None;
            },
            Some(x) => x,
        };
        let (event_id, p2) = match read_bytes32(bytes, p1) {
            None => {
                return None;
            },
            Some(x) => x,
        };
        let (outcome_id, p3) = match read_u8(bytes, p2) {
            None => {
                return None;
            },
            Some(x) => x,
        };
        let (amount, p4) = match read_u64(bytes, p3) {
            None => {
                return None;
            },
            Some(x) => x,
        };
        let (timestamp, p5) = match read_u64(bytes, p4) {
            None => {
                return None;
            },
            Some(x) => x,
        };
        let (bet_type, p6) = match read_bet_type(bytes, p5) {
            None => {
                return None;
            },
            Some(x) => x,
        };
        let (claimed, p7) = match read_bool(bytes, p6) {
            None => {
                return None;
            },
            Some(x) => x,
        };
        Some((Bet { user, event_id, outcome_id, amount, timestamp, bet_type, claimed }, p7))
    }

    fn write(&self, out: &mut Vec<u8>) {
        write_bytes32(out, &self.user);
        write_bytes32(out, &self.event_id);
        write_u8(out, self.outcome_id);
        write_u64(out, self.amount);
        write_u64(out, self.timestamp);
        write_bet_type(out, self.bet_type);
        write_bool(out, self.claimed);
        proof {
            assert(out@ =~= old(out)@ + Self::enc(self@));
        }
    }
}

impl Codec for BetsEntry {
    open spec fn enc_wf(v: BetsEntryV) -> bool {
        &&& v.user.len() == 32
        &&& v.bets.len() <= u32::MAX
        &&& forall|i: int| 0 <= i < v.bets.len() ==> <Bet as Codec>::enc_wf(#[trigger] v.bets[i])
    }

    open spec fn enc(v: BetsEntryV) -> Seq<u8> {
        v.user + spec_enc_vec::<Bet>(v.bets)
    }

    open spec fn parse(s: Seq<u8>, pos: int) -> Option<(BetsEntryV, int)> {
        match spec_parse_bytes32(s, pos) {
            None => None,
            Some((user, p1)) => match spec_parse_vec::<Bet>(s, p1) {
                None => None,
                Some((bets, p2)) => Some((BetsEntryV { user, bets }, p2)),
            },
        }
    }

    proof fn lemma_parse_enc(v: BetsEntryV, s: Seq<u8>, pos: int) {
        let e1 = v.user;
        let e2 = spec_enc_vec::<Bet>(v.bets);
        assert(Self::enc(v) =~= e1 + e2);
        lemma_subrange_split(s, pos, e1, e2);
        lemma_parse_enc_vec::<Bet>(v.bets, s, pos + 32);
    }

    fn read(bytes: &Vec<u8>, pos: usize) -> (r: Option<(BetsEntry, usize)>) {
        let (user, p1) = match read_bytes32(bytes, pos) {
            None => {
                return None;
            },
            Some(x) => x,
        };
        let (bets, p2) = match read_vec::<Bet>(bytes, p1) {
            None => {
                return None;
            },
            Some(x) => x,
        };
        Some((BetsEntry { user, bets }, p2))
    }

    fn write(&self, out: &mut Vec<u8>) {
        proof {
            assert forall|i: int| 0 <= i < self.bets@.len() implies <Bet as Codec>::enc_wf(
                (#[trigger] self.bets@[i])@,
            ) by {
                assert(view_seq(self.bets@)[i] == self.bets@[i]@);
            }
        }
        write_bytes32(out, &self.user);
        write_vec::<Bet>(&self.bets, out);
        proof {
            assert(out@ =~= old(out)@ + Self::enc(self@));
        }
    }
}

impl Codec for Outcome {
    open spec fn enc_wf(v: OutcomeV) -> bool {
        &&& v.bets.len() <= u32::MAX
        &&& forall|i: int|
            0 <= i < v.bets.len() ==> <BetsEntry as Codec>::enc_wf(#[trigger] v.bets[i])
    }

    open spec fn enc(v: OutcomeV) -> Seq<u8> {
        spec_enc_u8(v.id) + spec_enc_u64(v.total_amount) + spec_enc_vec::<BetsEntry>(v.bets)
    }

    open spec fn parse(s: Seq<u8>, pos: int) -> Option<(OutcomeV, int)> {
        match spec_parse_u8(s, pos) {
            None => None,
            Some((id, p1)) => match spec_parse_u64(s, p1) {
                None => None,
                Some((total_amount, p2)) => match spec_parse_vec::<BetsEntry>(s, p2) {
                    None => None,
                    Some((bets, p3)) => Some((OutcomeV { id, total_amount, bets }, p3)),
                },
            },
        }
    }

    proof fn lemma_parse_enc(v: OutcomeV, s: Seq<u8>, pos: int) {
        vstd::bytes::lemma_auto_spec_u64_to_from_le_bytes();
        let e1 = spec_enc_u8(v.id);
        let e2 = spec_enc_u64(v.total_amount);
        let e3 = spec_enc_vec::<BetsEntry>(v.bets);
        assert(Self::enc(v) =~= e1 + (e2 + e3));
        lemma_subrange_split(s, pos, e1, e2 + e3);
        lemma_subrange_split(s, pos + 1, e2, e3);
        lemma_parse_enc_u8(s, pos, v.id);
        lemma_parse_enc_u64(s, pos + 1, v.total_amount);
        lemma_parse_enc_vec::<BetsEntry>(v.bets, s, pos + 9);
    }

    fn read(bytes: &Vec<u8>, pos: usize) -> (r: Option<(Outcome, usize)>) {
        let (id, p1) = match read_u8(bytes, pos) {
            None => {
                return None;
            },
            Some(x) => x,
        };
        let (total_amount, p2) = match read_u64(bytes, p1) {
            None => {
                return None;
            },
            Some(x) => x,
        };
        let (bets, p3) = match read_vec::<BetsEntry>(bytes, p2) {
            None => {
                return None;
            },
            Some(x) => x,
        };
        Some((Outcome { id, total_amount, bets }, p3))
    }

    fn write(&self, out: &mut Vec<u8>) {
        proof {
            assert forall|i: int| 0 <= i < self.bets@.len() implies <BetsEntry as Codec>::enc_wf(
                (#[trigger] self.bets@[i])@,
            ) by {
                assert(view_seq(self.bets@)[i] == self.bets@[i]@);
            }
        }
        write_u8(out, self.id);
        write_u64(out, self.total_amount);
        write_vec::<BetsEntry>(&self.bets, out);
        proof {
            assert(out@ =~= old(out)@ + Self::enc(self@));
        }
    }
}

impl Codec for PredictionEvent {
    open spec fn enc_wf(v: PredictionEventV) -> bool {
        &&& v.unique_id.len() == 32
        &&& v.creator.len() == 32
        &&& v.outcomes.len() <= u32::MAX
        &&& forall|i: int|
            0 <= i < v.outcomes.len() ==> <Outcome as Codec>::enc_wf(#[trigger] v.outcomes[i])
    }

    open spec fn enc(v: PredictionEventV) -> Seq<u8> {
        v.unique_id + v.creator + spec_enc_u64(v.expiry_timestamp) + spec_enc_vec::<Outcome>(
            v.outcomes,
        ) + spec_enc_u64(v.total_pool_amount) + spec_enc_status(v.status) + spec_enc_opt_u8(
            v.winning_outcome,
        )
    }

    open spec fn parse(s: Seq<u8>, pos: int) -> Option<(PredictionEventV, int)> {
        match spec_parse_bytes32(s, pos) {
            None => None,
            Some((unique_id, p1)) => match spec_parse_bytes32(s, p1) {
                None => None,
                Some((creator, p2)) => match spec_parse_u64(s, p2) {
                    None => None,
                    Some((expiry_timestamp, p3)) => match spec_parse_vec::<Outcome>(s, p3) {
                        None => None,
                        Some((outcomes, p4)) => match spec_parse_u64(s, p4) {
                            None => None,
                            Some((total_pool_amount, p5)) => match spec_parse_status(s, p5) {
                                None => None,
                                Some((status, p6)) => match spec_parse_opt_u8(s, p6) {
                                    None => None,
                                    Some((winning_outcome, p7)) => Some(
                                        (
                                            PredictionEventV {
                                                unique_id,
                                                creator,
                                                expiry_timestamp,
                                                outcomes,
                                                total_pool_amount,
                                                status,
                                                winning_outcome,
                                            },
                                            p7,
                                        ),
                                    ),
                                },
                            },
                        },
                    },
                },
            },
        }
    }

    proof fn lemma_parse_enc(v: PredictionEventV, s: Seq<u8>, pos: int) {
        vstd::bytes::lemma_auto_spec_u64_to_from_le_bytes();
        let e1 = v.unique_id;
        let e2 = v.creator;
        let e3 = spec_enc_u64(v.expiry_timestamp);
        let e4 = spec_enc_vec::<Outcome>(v.outcomes);
        let e5 = spec_enc_u64(v.total_pool_amount);
        let e6 = spec_enc_status(v.status);
        let e7 = spec_enc_opt_u8(v.winning_outcome);
        assert(Self::enc(v) =~= e1 + (e2 + (e3 + (e4 + (e5 + (e6 + e7))))));
        let p1 = pos + 32;
        let p2 = p1 + 32;
        let p3 = p2 + 8;
        let p4 = p3 + e4.len() as int;
        let p5 = p4 + 8;
        let p6 = p5 + 1;
        lemma_subrange_split(s, pos, e1, e2 + (e3 + (e4 + (e5 + (e6 + e7)))));
        lemma_subrange_split(s, p1, e2, e3 + (e4 + (e5 + (e6 + e7))));
        lemma_subrange_split(s, p2, e3, e4 + (e5 + (e6 + e7)));
        lemma_subrange_split(s, p3, e4, e5 + (e6 + e7));
        lemma_subrange_split(s, p4, e5, e6 + e7);
        lemma_subrange_split(s, p5, e6, e7);
        lemma_parse_enc_u64(s, p2, v.expiry_timestamp);
        lemma_parse_enc_vec::<Outcome>(v.outcomes, s, p3);
        lemma_parse_enc_u64(s, p4, v.total_pool_amount);
        lemma_parse_enc_status(s, p5, v.status);
        lemma_parse_enc_opt_u8(s, p6, v.winning_outcome);
    }

    fn read(bytes: &Vec<u8>, pos: usize) -> (r: Option<(PredictionEvent, usize)>) {
        let (unique_id, p1) = match read_bytes32(bytes, pos) {
            None => {
                return None;
            },
            Some(x) => x,
        };
        let (creator, p2) = match read_bytes32(bytes, p1) {
            None => {
                return None;
            },
            Some(x) => x,
        };
        let (expiry_timestamp, p3) = match read_u64(bytes, p2) {
            None => {
                return None;
            },
            Some(x) => x,
        };
        let (outcomes, p4) = match read_vec::<Outcome>(bytes, p3) {
            None => {
                return None;
            },
            Some(x) => x,
        };
        let (total_pool_amount, p5) = match read_u64(bytes, p4) {
            None => {
                return None;
            },
            Some(x) => x,
        };
        let (status, p6) = match read_status(bytes, p5) {
            None => {
                return None;
            },
            Some(x) => x,
        };
        let (winning_outcome, p7) = match read_opt_u8(bytes, p6) {
            None => {
                return None;
            },
            Some(x) => x,
        };
        Some(
            (
                PredictionEvent {
                    unique_id,
                    creator,
                    expiry_timestamp,
                    outcomes,
                    total_pool_amount,
                    status,
                    winning_outcome,
                },
                p7,
            ),
        )
    }

    fn write(&self, out: &mut Vec<u8>) {
        proof {
            assert forall|i: int| 0 <= i < self.outcomes@.len() implies <Outcome as Codec>::enc_wf(
                (#[trigger] self.outcomes@[i])@,
            ) by {
                assert(view_seq(self.outcomes@)[i] == self.outcomes@[i]@);
            }
        }
        write_bytes32(out, &self.unique_id);
        write_bytes32(out, &self.creator);
        write_u64(out, self.expiry_timestamp);
        write_vec::<Outcome>(&self.outcomes, out);
        write_u64(out, self.total_pool_amount);
        write_status(out, self.status);
        write_opt_u8(out, &self.winning_outcome);
        proof {
            assert(out@ =~= old(out)@ + Self::enc(self@));
        }
    }
}

// ---------------------------------------------------------------------------
// the persisted aggregate
// ---------------------------------------------------------------------------
/// The views of the aggregate whose encoding is well formed: every sequence
/// count fits the `u32` length headers.
pub open spec fn enc_wf_predictions(v: PredictionsV) -> bool {
    &&& v.predictions.len() <= u32::MAX
    &&& forall|i: int|
        0 <= i < v.predictions.len() ==> <PredictionEvent as Codec>::enc_wf(
            #[trigger] v.predictions[i],
        )
}

pub open spec fn spec_enc_predictions(v: PredictionsV) -> Seq<u8> {
    spec_enc_u32(v.total_predictions) + spec_enc_vec::<PredictionEvent>(v.predictions)
}

pub open spec fn spec_parse_predictions(s: Seq<u8>, pos: int) -> Option<(PredictionsV, int)> {
    match spec_parse_u32(s, pos) {
        None => None,
        Some((total_predictions, p1)) => match spec_parse_vec::<PredictionEvent>(s, p1) {
            None => None,
            Some((predictions, p2)) => Some((PredictionsV { total_predictions, predictions }, p2)),
        },
    }
}

pub proof fn lemma_parse_enc_predictions(v: PredictionsV, s: Seq<u8>, pos: int)
    requires
        enc_wf_predictions(v),
        0 <= pos,
        pos + spec_enc_predictions(v).len() <= s.len(),
        s.subrange(pos, pos + spec_enc_predictions(v).len() as int) == spec_enc_predictions(v),
    ensures
        spec_parse_predictions(s, pos) == Some((v, pos + spec_enc_predictions(v).len() as int)),
{
    vstd::bytes::lemma_auto_spec_u32_to_from_le_bytes();
    let e1 = spec_enc_u32(v.total_predictions);
    let e2 = spec_enc_vec::<PredictionEvent>(v.predictions);
    assert(spec_enc_predictions(v) =~= e1 + e2);
    lemma_subrange_split(s, pos, e1, e2);
    crate::codec::lemma_parse_enc_u32(s, pos, v.total_predictions);
    lemma_parse_enc_vec::<PredictionEvent>(v.predictions, s, pos + 4);
}

/// Whatever a bet parse yields is a well-formed encoding: its identifier
/// blocks have the fixed 32-byte length.
pub proof fn lemma_parse_bet_wf(s: Seq<u8>, pos: int)
    ensures
        <Bet as Codec>::parse(s, pos) matches Some(pr) ==> <Bet as Codec>::enc_wf(pr.0),
{
}

/// Whatever a history-row parse yields is a well-formed encoding: its count
/// was read from a `u32` header.
pub proof fn lemma_parse_bets_entry_wf(s: Seq<u8>, pos: int)
    ensures
        <BetsEntry as Codec>::parse(s, pos) matches Some(pr) ==> <BetsEntry as Codec>::enc_wf(
            pr.0,
        ),
{
    assert forall|p2: int|
        #![trigger <Bet as Codec>::parse(s, p2)]
        (<Bet as Codec>::parse(s, p2) matches Some(pr) ==> <Bet as Codec>::enc_wf(pr.0)) by {
        lemma_parse_bet_wf(s, p2);
    }
    crate::codec::lemma_parse_vec_shape::<Bet>(s, pos + 32);
}

/// Whatever an outcome parse yields is a well-formed encoding.
pub proof fn lemma_parse_outcome_wf(s: Seq<u8>, pos: int)
    ensures
        <Outcome as Codec>::parse(s, pos) matches Some(pr) ==> <Outcome as Codec>::enc_wf(pr.0),
{
    assert forall|p2: int|
        #![trigger <BetsEntry as Codec>::parse(s, p2)]
        (<BetsEntry as Codec>::parse(s, p2) matches Some(pr) ==> <BetsEntry as Codec>::enc_wf(
            pr.0,
        )) by {
        lemma_parse_bets_entry_wf(s, p2);
    }
    crate::codec::lemma_parse_vec_shape::<BetsEntry>(s, pos + 9);
}

/// Whatever an event parse yields is a well-formed encoding.
pub proof fn lemma_parse_event_wf(s: Seq<u8>, pos: int)
    ensures
        <PredictionEvent as Codec>::parse(s, pos) matches Some(pr)
            ==> <PredictionEvent as Codec>::enc_wf(pr.0),
{
    assert forall|p2: int|
        #![trigger <Outcome as Codec>::parse(s, p2)]
        (<Outcome as Codec>::parse(s, p2) matches Some(pr) ==> <Outcome as Codec>::enc_wf(
            pr.0,
        )) by {
        lemma_parse_outcome_wf(s, p2);
    }
    crate::codec::lemma_parse_vec_shape::<Outcome>(s, pos + 72);
}

/// Whatever an aggregate parse yields is a well-formed encoding — so a
/// loaded aggregate can always be re-encoded, up to the rows an operation
/// adds.
pub proof fn lemma_parse_predictions_wf(s: Seq<u8>, pos: int)
    ensures
        spec_parse_predictions(s, pos) matches Some(pr) ==> enc_wf_predictions(pr.0),
{
    assert forall|p2: int|
        #![trigger <PredictionEvent as Codec>::parse(s, p2)]
        (<PredictionEvent as Codec>::parse(s, p2) matches Some(pr)
            ==> <PredictionEvent as Codec>::enc_wf(pr.0)) by {
        lemma_parse_event_wf(s, p2);
    }
    crate::codec::lemma_parse_vec_shape::<PredictionEvent>(s, pos + 4);
}

pub fn read_predictions(bytes: &Vec<u8>, pos: usize) -> (r: Option<(Predictions, usize)>)
    requires
        pos <= bytes@.len(),
    ensures
        match r {
            Some((p, pend)) => {
                &&& spec_parse_predictions(bytes@, pos as int) == Some((p@, pend as int))
                &&& pend <= bytes@.len()
            },
            None => spec_parse_predictions(bytes@, pos as int) is None,
        },
{
    let (total_predictions, p1) = match read_u32(bytes, pos) {
        None => {
            return None;
        },
        Some(x) => x,
    };
    let (predictions, p2) = match read_vec::<PredictionEvent>(bytes, p1) {
        None => {
            return None;
        },
        Some(x) => x,
    };
    Some((Predictions { total_predictions, predictions }, p2))
}

pub fn write_predictions(p: &Predictions, out: &mut Vec<u8>)
    requires
        enc_wf_predictions(p@),
    ensures
        final(out)@ == old(out)@ + spec_enc_predictions(p@),
{
    proof {
        assert forall|i: int|
            0 <= i < p.predictions@.len() implies <PredictionEvent as Codec>::enc_wf(
            (#[trigger] p.predictions@[i])@,
        ) by {
            assert(view_seq(p.predictions@)[i] == p.predictions@[i]@);
        }
    }
    write_u32(out, p.total_predictions);
    write_vec::<PredictionEvent>(&p.predictions, out);
    proof {
        assert(out@ =~= old(out)@ + spec_enc_predictions(p@));
    }
}

} // verus!
