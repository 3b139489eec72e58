//! The storage engine: strict decode and deterministic encode of the two
//! persisted records, the growth-only slot write, and the prefix load that
//! the call handlers use.  A slot is one byte vector; it only ever grows, so
//! bytes beyond the current encoding may be stale remains of an earlier,
//! longer encoding and are ignored on load.

use vstd::prelude::*;
use crate::codec_events::{
    enc_wf_predictions, lemma_parse_enc_predictions, read_predictions, spec_enc_predictions,
    spec_parse_predictions, write_predictions,
};
use crate::codec_mint::{
    enc_wf_mint, lemma_parse_enc_mint, read_mint, spec_enc_mint, spec_parse_mint, write_mint,
};
use crate::mint::{balances_sum, mint_wf, BalanceEntry, MetadataEntry, TokenMintDetails};
use crate::types::{
    event_wf, outcome_total_sum, outcome_wf, predictions_wf, PredictionMarketError, Predictions,
};
use crate::validate::{check_mint_wf, check_predictions_wf};
use crate::codec::view_seq;

verus! {

// ---------------------------------------------------------------------------
// well-formedness is a property of the view
// ---------------------------------------------------------------------------
proof fn lemma_outcome_sum_view(s1: Seq<crate::types::Outcome>, s2: Seq<crate::types::Outcome>)
    requires
        view_seq(s1) == view_seq(s2),
    ensures
        outcome_total_sum(s1) == outcome_total_sum(s2),
    decreases s1.len(),
{
    assert(view_seq(s1).len() == s1.len());
    assert(view_seq(s2).len() == s2.len());
    if s1.len() > 0 {
        assert(view_seq(s1.drop_last()) =~= view_seq(s1).drop_last());
        assert(view_seq(s2.drop_last()) =~= view_seq(s2).drop_last());
        lemma_outcome_sum_view(s1.drop_last(), s2.drop_last());
        assert(view_seq(s1)[s1.len() - 1] == s1.last()@);
        assert(view_seq(s2)[s2.len() - 1] == s2.last()@);
        assert(s1.last()@.total_amount == s2.last()@.total_amount);
    }
}

proof fn lemma_event_wf_view(e1: crate::types::PredictionEvent, e2: crate::types::PredictionEvent)
    requires
        e1@ == e2@,
    ensures
        event_wf(e1) == event_wf(e2),
{
    assert(view_seq(e1.outcomes@) == view_seq(e2.outcomes@));
    assert(view_seq(e1.outcomes@).len() == e1.outcomes@.len());
    assert(view_seq(e2.outcomes@).len() == e2.outcomes@.len());
    lemma_outcome_sum_view(e1.outcomes@, e2.outcomes@);
    assert forall|i: int|
        #![trigger e1.outcomes@[i]]
        #![trigger e2.outcomes@[i]]
        0 <= i < e1.outcomes@.len() implies (outcome_wf(e1.outcomes@[i], i) == outcome_wf(
        e2.outcomes@[i],
        i,
    )) by {
        let o1 = e1.outcomes@[i];
        let o2 = e2.outcomes@[i];
        assert(view_seq(e1.outcomes@)[i] == o1@);
        assert(view_seq(e2.outcomes@)[i] == o2@);
        assert(o1@ == o2@);
        assert(view_seq(o1.bets@) == view_seq(o2.bets@));
        assert(view_seq(o1.bets@).len() == o1.bets@.len());
        assert(view_seq(o2.bets@).len() == o2.bets@.len());
        assert forall|a: int, b: int|
            #![trigger o1.bets@[a], o1.bets@[b]]
            #![trigger o2.bets@[a], o2.bets@[b]]
            0 <= a < b < o1.bets@.len() implies ((o1.bets@[a].user@ != o1.bets@[b].user@) == (
        o2.bets@[a].user@ != o2.bets@[b].user@)) by {
            assert(view_seq(o1.bets@)[a] == o1.bets@[a]@);
            assert(view_seq(o1.bets@)[b] == o1.bets@[b]@);
            assert(view_seq(o2.bets@)[a] == o2.bets@[a]@);
            assert(view_seq(o2.bets@)[b] == o2.bets@[b]@);
        }
    }
}

/// Whether the aggregate is well formed depends only on its view: two
/// records that decode and encode alike are alike well formed.
proof fn lemma_predictions_wf_view(p1: Predictions, p2: Predictions)
    requires
        p1@ == p2@,
    ensures
        predictions_wf(p1) == predictions_wf(p2),
{
    assert(view_seq(p1.predictions@) == view_seq(p2.predictions@));
    assert(view_seq(p1.predictions@).len() == p1.predictions@.len());
    assert(view_seq(p2.predictions@).len() == p2.predictions@.len());
    assert forall|i: int|
        #![trigger p1.predictions@[i]]
        #![trigger p2.predictions@[i]]
        0 <= i < p1.predictions@.len() implies (p1.predictions@[i]@ == p2.predictions@[i]@) by {
        assert(view_seq(p1.predictions@)[i] == p1.predictions@[i]@);
        assert(view_seq(p2.predictions@)[i] == p2.predictions@[i]@);
    }
    assert forall|i: int|
        #![trigger p1.predictions@[i]]
        #![trigger p2.predictions@[i]]
        0 <= i < p1.predictions@.len() implies (event_wf(p1.predictions@[i]) == event_wf(
        p2.predictions@[i],
    )) by {
        lemma_event_wf_view(p1.predictions@[i], p2.predictions@[i]);
    }
    assert forall|i: int, j: int|
        #![trigger p1.predictions@[i], p1.predictions@[j]]
        #![trigger p2.predictions@[i], p2.predictions@[j]]
        0 <= i < j < p1.predictions@.len() implies ((p1.predictions@[i].unique_id@
        != p1.predictions@[j].unique_id@) == (p2.predictions@[i].unique_id@
        != p2.predictions@[j].unique_id@)) by {
        assert(p1.predictions@[i]@ == p2.predictions@[i]@);
        assert(p1.predictions@[j]@ == p2.predictions@[j]@);
    }
}

// ---------------------------------------------------------------------------
// strict decode / encode of the aggregate
// ---------------------------------------------------------------------------
/// No well-formed aggregate encodes to these bytes.
pub open spec fn no_wf_encoding(bytes: Seq<u8>) -> bool {
    forall|q: Predictions|
        predictions_wf(q) && enc_wf_predictions(q@) ==> #[trigger] spec_enc_predictions(q@)
            != bytes
}

/// Strict decode of the aggregate.  A zero-length buffer is the bootstrap
/// state of an uninitialized slot and decodes to the empty aggregate; any
/// other buffer must be exactly one well-formed encoding, else `DecodeError`.
pub fn decode_predictions(bytes: &Vec<u8>) -> (r: Result<Predictions, PredictionMarketError>)
    ensures
        match r {
            Ok(p) => {
                &&& predictions_wf(p)
                &&& bytes@.len() == 0 ==> (p.total_predictions == 0 && p.predictions@.len() == 0)
                &&& bytes@.len() > 0 ==> spec_parse_predictions(bytes@, 0) == Some(
                    (p@, bytes@.len() as int),
                )
            },
            Err(e) => {
                &&& e == PredictionMarketError::DecodeError
                &&& bytes@.len() > 0
                &&& no_wf_encoding(bytes@)
            },
        },
{
    if bytes.len() == 0 {
        let p = Predictions { total_predictions: 0, predictions: Vec::new() };
        proof {
            assert(predictions_wf(p));
        }
        return Ok(p);
    }
    match read_predictions(bytes, 0) {
        None => {
            proof {
                assert forall|q: Predictions|
                    predictions_wf(q) && enc_wf_predictions(q@) implies #[trigger] spec_enc_predictions(
                    q@,
                ) != bytes@ by {
                    if spec_enc_predictions(q@) == bytes@ {
                        assert(bytes@.subrange(0, bytes@.len() as int) =~= bytes@);
                        lemma_parse_enc_predictions(q@, bytes@, 0);
                    }
                }
            }
            Err(PredictionMarketError::DecodeError)
        },
        Some((p, pend)) => {
            if pend != bytes.len() {
                proof {
                    assert forall|q: Predictions|
                        predictions_wf(q) && enc_wf_predictions(q@) implies #[trigger] spec_enc_predictions(
                        q@,
                    ) != bytes@ by {
                        if spec_enc_predictions(q@) == bytes@ {
                            assert(bytes@.subrange(0, bytes@.len() as int) =~= bytes@);
                            lemma_parse_enc_predictions(q@, bytes@, 0);
                        }
                    }
                }
                return Err(PredictionMarketError::DecodeError);
            }
            if !check_predictions_wf(&p) {
                proof {
                    assert forall|q: Predictions|
                        predictions_wf(q) && enc_wf_predictions(q@) implies #[trigger] spec_enc_predictions(
                        q@,
                    ) != bytes@ by {
                        if spec_enc_predictions(q@) == bytes@ {
                            assert(bytes@.subrange(0, bytes@.len() as int) =~= bytes@);
                            lemma_parse_enc_predictions(q@, bytes@, 0);
                            assert(p@ == q@);
                            lemma_predictions_wf_view(p, q);
                        }
                    }
                }
                return Err(PredictionMarketError::DecodeError);
            }
            Ok(p)
        },
    }
}

/// Executable decision of `enc_wf_predictions`: every sequence count fits
/// its `u32` length header.
pub fn check_encodable_predictions(p: &Predictions) -> (r: bool)
    ensures
        r == enc_wf_predictions(p@),
{
    let ne = p.predictions.len();
    if ne > u32::MAX as usize {
        return false;
    }
    let mut i: usize = 0;
    while i < ne
        invariant
            0 <= i <= ne,
            ne == p.predictions@.len(),
            ne <= u32::MAX,
            forall|k: int|
                0 <= k < i ==> <crate::types::PredictionEvent as crate::codec::Codec>::enc_wf(
                    (#[trigger] p.predictions@[k])@,
                ),
        decreases ne - i,
    {
        let e = &p.predictions[i];
        let no = e.outcomes.len();
        if no > u32::MAX as usize {
            proof {
                assert(view_seq(p.predictions@).len() == p.predictions@.len());
                assert(p@.predictions[i as int] == p.predictions@[i as int]@);
                assert(view_seq(e.outcomes@).len() == e.outcomes@.len());
                assert(!<crate::types::PredictionEvent as crate::codec::Codec>::enc_wf(
                    p@.predictions[i as int],
                ));
            }
            return false;
        }
        let mut j: usize = 0;
        while j < no
            invariant
                0 <= j <= no,
                no == e.outcomes@.len(),
                no <= u32::MAX,
                i < p.predictions@.len(),
                *e == p.predictions@[i as int],
                forall|k: int|
                    0 <= k < j ==> <crate::types::Outcome as crate::codec::Codec>::enc_wf(
                        (#[trigger] e.outcomes@[k])@,
                    ),
            decreases no - j,
        {
            let o = &e.outcomes[j];
            let nn = o.bets.len();
            if nn > u32::MAX as usize {
                proof {
                    assert(view_seq(p.predictions@).len() == p.predictions@.len());
                    assert(p@.predictions[i as int] == p.predictions@[i as int]@);
                    assert(view_seq(e.outcomes@).len() == e.outcomes@.len());
                    assert(view_seq(e.outcomes@)[j as int] == e.outcomes@[j as int]@);
                    assert(view_seq(o.bets@).len() == o.bets@.len());
                    assert(!<crate::types::Outcome as crate::codec::Codec>::enc_wf(
                        e.outcomes@[j as int]@,
                    ));
                    assert(!<crate::types::PredictionEvent as crate::codec::Codec>::enc_wf(
                        p@.predictions[i as int],
                    ));
                }
                return false;
            }
            let mut k: usize = 0;
            while k < nn
                invariant
                    0 <= k <= nn,
                    nn == o.bets@.len(),
                    nn <= u32::MAX,
                    i < p.predictions@.len(),
                    *e == p.predictions@[i as int],
                    j < e.outcomes@.len(),
                    *o == e.outcomes@[j as int],
                    forall|m: int|
                        0 <= m < k ==> <crate::types::BetsEntry as crate::codec::Codec>::enc_wf(
                            (#[trigger] o.bets@[m])@,
                        ),
                decreases nn - k,
            {
                if o.bets[k].bets.len() > u32::MAX as usize {
                    proof {
                        assert(view_seq(p.predictions@).len() == p.predictions@.len());
                        assert(p@.predictions[i as int] == p.predictions@[i as int]@);
                        assert(view_seq(e.outcomes@).len() == e.outcomes@.len());
                        assert(view_seq(e.outcomes@)[j as int] == e.outcomes@[j as int]@);
                        assert(view_seq(o.bets@).len() == o.bets@.len());
                        assert(view_seq(o.bets@)[k as int] == o.bets@[k as int]@);
                        assert(view_seq(o.bets@[k as int].bets@).len() == o.bets@[k as int].bets@.len());
                        assert(!<crate::types::BetsEntry as crate::codec::Codec>::enc_wf(
                            o.bets@[k as int]@,
                        ));
                        assert(!<crate::types::Outcome as crate::codec::Codec>::enc_wf(
                            e.outcomes@[j as int]@,
                        ));
                        assert(!<crate::types::PredictionEvent as crate::codec::Codec>::enc_wf(
                            p@.predictions[i as int],
                        ));
                    }
                    return false;
                }
                proof {
                    assert(view_seq(o.bets@[k as int].bets@).len() == o.bets@[k as int].bets@.len());
                    assert forall|m: int|
                        0 <= m < o.bets@[k as int].bets@.len() implies <crate::types::Bet as crate::codec::Codec>::enc_wf(
                        #[trigger] view_seq(o.bets@[k as int].bets@)[m],
                    ) by {
                        assert(view_seq(o.bets@[k as int].bets@)[m] == o.bets@[k as int].bets@[m]@);
                    }
                }
                k += 1;
            }
            proof {
                assert(view_seq(o.bets@).len() == o.bets@.len());
                assert forall|m: int|
                    0 <= m < o.bets@.len() implies <crate::types::BetsEntry as crate::codec::Codec>::enc_wf(
                    #[trigger] view_seq(o.bets@)[m],
                ) by {
                    assert(view_seq(o.bets@)[m] == o.bets@[m]@);
                }
            }
            j += 1;
        }
        proof {
            assert(view_seq(e.outcomes@).len() == e.outcomes@.len());
            assert forall|m: int|
                0 <= m < e.outcomes@.len() implies <crate::types::Outcome as crate::codec::Codec>::enc_wf(
                #[trigger] view_seq(e.outcomes@)[m],
            ) by {
                assert(view_seq(e.outcomes@)[m] == e.outcomes@[m]@);
            }
        }
        i += 1;
    }
    proof {
        assert(view_seq(p.predictions@).len() == p.predictions@.len());
        assert forall|m: int|
            0 <= m < p.predictions@.len() implies <crate::types::PredictionEvent as crate::codec::Codec>::enc_wf(
            #[trigger] view_seq(p.predictions@)[m],
        ) by {
            assert(view_seq(p.predictions@)[m] == p.predictions@[m]@);
        }
    }
    true
}

/// Deterministic encode of the aggregate: the same logical value always
/// yields identical bytes.  Fails with `EncodeError` exactly when a sequence
/// count cannot fit its `u32` length header.
pub fn encode_predictions(p: &Predictions) -> (r: Result<Vec<u8>, PredictionMarketError>)
    ensures
        match r {
            Ok(bytes) => enc_wf_predictions(p@) && bytes@ == spec_enc_predictions(p@),
            Err(e) => e == PredictionMarketError::EncodeError && !enc_wf_predictions(p@),
        },
{
    if !check_encodable_predictions(p) {
        return Err(PredictionMarketError::EncodeError);
    }
    let mut out: Vec<u8> = Vec::new();
    write_predictions(p, &mut out);
    proof {
        assert(out@ =~= spec_enc_predictions(p@));
    }
    Ok(out)
}

// ---------------------------------------------------------------------------
// the growth-only slot write
// ---------------------------------------------------------------------------
/// Write `data` at the start of the slot.  The slot is grown to exactly the
/// data's size when it is too small and is never shrunk, so bytes past the
/// data survive as they were.
pub fn write_into_slot(slot: &mut Vec<u8>, data: &Vec<u8>)
    ensures
        final(slot)@.len() == if old(slot)@.len() >= data@.len() {
            old(slot)@.len() as int
        } else {
            data@.len() as int
        },
        final(slot)@.subrange(0, data@.len() as int) == data@,
        data@.len() <= old(slot)@.len() ==> final(slot)@.subrange(
            data@.len() as int,
            old(slot)@.len() as int,
        ) == old(slot)@.subrange(data@.len() as int, old(slot)@.len() as int),
{
    let n = data.len();
    while slot.len() < n
        invariant
            slot@.len() >= old(slot)@.len(),
            n == data@.len(),
            slot@.len() <= vstd::math::max(old(slot)@.len() as int, n as int),
            forall|k: int| 0 <= k < old(slot)@.len() ==> slot@[k] == old(slot)@[k],
        decreases n - slot@.len(),
    {
        slot.push(0);
    }
    let ghost grown = slot@;
    let mut i: usize = 0;
    while i < n
        invariant
            0 <= i <= n,
            n == data@.len(),
            slot@.len() == grown.len(),
            n <= grown.len(),
            forall|k: int| 0 <= k < i ==> slot@[k] == data@[k],
            forall|k: int| i <= k < grown.len() ==> slot@[k] == grown[k],
        decreases n - i,
    {
        slot[i] = data[i];
        i += 1;
    }
    proof {
        assert(slot@.subrange(0, n as int) =~= data@);
        if n <= old(slot)@.len() {
            assert(slot@.subrange(n as int, old(slot)@.len() as int) =~= old(slot)@.subrange(
                n as int,
                old(slot)@.len() as int,
            ));
        }
    }
}

/// Encode the aggregate and persist it, growing the slot to exactly the new
/// encoded size when needed and never shrinking it.  On failure the slot is
/// untouched.
pub fn store_predictions(slot: &mut Vec<u8>, p: &Predictions) -> (r: Result<
    (),
    PredictionMarketError,
>)
    ensures
        final(slot)@.len() >= old(slot)@.len(),
        match r {
            Ok(()) => {
                let enc = spec_enc_predictions(p@);
                &&& enc_wf_predictions(p@)
                &&& final(slot)@.len() == vstd::math::max(old(slot)@.len() as int, enc.len() as int)
                &&& final(slot)@.subrange(0, enc.len() as int) == enc
                &&& enc.len() <= old(slot)@.len() ==> final(slot)@.subrange(
                    enc.len() as int,
                    old(slot)@.len() as int,
                ) == old(slot)@.subrange(enc.len() as int, old(slot)@.len() as int)
            },
            Err(e) => {
                &&& e == PredictionMarketError::EncodeError
                &&& !enc_wf_predictions(p@)
                &&& *final(slot) == *old(slot)
            },
        },
{
    match encode_predictions(p) {
        Err(e) => Err(e),
        Ok(data) => {
            write_into_slot(slot, &data);
            Ok(())
        },
    }
}

/// A record that a prefix load of these bytes yields: for the aggregate, a
/// zero-length buffer is the bootstrap state and loads as the empty
/// aggregate.
pub open spec fn loaded_predictions_from(bytes: Seq<u8>, p: Predictions) -> bool {
    if bytes.len() == 0 {
        p.total_predictions == 0 && p.predictions@.len() == 0
    } else {
        spec_parse_predictions(bytes, 0) matches Some(pr) && pr.0 == p@
    }
}

/// No well-formed aggregate loads from these bytes.
pub open spec fn no_wf_loadable_predictions(bytes: Seq<u8>) -> bool {
    forall|q: Predictions|
        predictions_wf(q) && enc_wf_predictions(q@) ==> !#[trigger] loaded_predictions_from(
            bytes,
            q,
        )
}

/// The slot bytes after a successful store of `p` over a slot that held
/// `old_len` bytes: the encoding as a prefix, grown to exactly its size when
/// the slot was smaller, never shrunk.
pub open spec fn slot_holds_predictions(bytes: Seq<u8>, p: Predictions, old_len: int) -> bool {
    let enc = spec_enc_predictions(p@);
    &&& bytes.subrange(0, enc.len() as int) == enc
    &&& bytes.len() == vstd::math::max(old_len, enc.len() as int)
}

/// A loaded aggregate is always re-encodable: every sequence count it
/// carries was read from a `u32` length header (or it is the empty
/// bootstrap state).
pub proof fn lemma_loaded_predictions_enc_wf(bytes: Seq<u8>, p: Predictions)
    requires
        loaded_predictions_from(bytes, p),
    ensures
        enc_wf_predictions(p@),
{
    if bytes.len() == 0 {
        assert(view_seq(p.predictions@).len() == p.predictions@.len());
    } else {
        crate::codec_events::lemma_parse_predictions_wf(bytes, 0);
    }
}

/// A loaded token record is always re-encodable.
pub proof fn lemma_loaded_mint_enc_wf(bytes: Seq<u8>, t: TokenMintDetails)
    requires
        loaded_mint_from(bytes, t),
    ensures
        enc_wf_mint(t@),
{
    crate::codec_mint::lemma_parse_mint_wf(bytes, 0);
}

/// Load the aggregate from a slot: parse one encoding from the start,
/// ignoring stale bytes past it, and admit only well-formed state.  The
/// zero-length bootstrap rule applies as in `decode_predictions`.
pub fn load_predictions(slot: &Vec<u8>) -> (r: Result<Predictions, PredictionMarketError>)
    ensures
        match r {
            Ok(p) => {
                &&& predictions_wf(p)
                &&& loaded_predictions_from(slot@, p)
            },
            Err(e) => {
                &&& e == PredictionMarketError::DecodeError
                &&& slot@.len() > 0
                &&& no_wf_loadable_predictions(slot@)
            },
        },
{
    if slot.len() == 0 {
        let p = Predictions { total_predictions: 0, predictions: Vec::new() };
        return Ok(p);
    }
    match read_predictions(slot, 0) {
        None => Err(PredictionMarketError::DecodeError),
        Some((p, _pend)) => {
            if !check_predictions_wf(&p) {
                proof {
                    assert forall|q: Predictions|
                        predictions_wf(q) && enc_wf_predictions(q@) implies !(
                    #[trigger] spec_parse_predictions(slot@, 0) matches Some(pr) && pr.0 == q@) by {
                        if spec_parse_predictions(slot@, 0) matches Some(pr) && pr.0 == q@ {
                            assert(p@ == q@);
                            lemma_predictions_wf_view(p, q);
                        }
                    }
                }
                return Err(PredictionMarketError::DecodeError);
            }
            Ok(p)
        },
    }
}

// ---------------------------------------------------------------------------
// the token record's storage
// ---------------------------------------------------------------------------
proof fn lemma_balances_sum_view(s1: Seq<BalanceEntry>, s2: Seq<BalanceEntry>)
    requires
        view_seq(s1) == view_seq(s2),
    ensures
        balances_sum(s1) == balances_sum(s2),
    decreases s1.len(),
{
    assert(view_seq(s1).len() == s1.len());
    assert(view_seq(s2).len() == s2.len());
    if s1.len() > 0 {
        assert(view_seq(s1.drop_last()) =~= view_seq(s1).drop_last());
        assert(view_seq(s2.drop_last()) =~= view_seq(s2).drop_last());
        lemma_balances_sum_view(s1.drop_last(), s2.drop_last());
        assert(view_seq(s1)[s1.len() - 1] == s1.last()@);
        assert(view_seq(s2)[s2.len() - 1] == s2.last()@);
        assert(s1.last()@.amount == s2.last()@.amount);
    }
}

/// Whether the token record is well formed depends only on its view.
proof fn lemma_mint_wf_view(t1: TokenMintDetails, t2: TokenMintDetails)
    requires
        t1@ == t2@,
    ensures
        mint_wf(t1) == mint_wf(t2),
{
    assert(view_seq(t1.balances@) == view_seq(t2.balances@));
    assert(view_seq(t1.balances@).len() == t1.balances@.len());
    assert(view_seq(t2.balances@).len() == t2.balances@.len());
    assert(view_seq(t1.token_metadata@) == view_seq(t2.token_metadata@));
    assert(view_seq(t1.token_metadata@).len() == t1.token_metadata@.len());
    assert(view_seq(t2.token_metadata@).len() == t2.token_metadata@.len());
    lemma_balances_sum_view(t1.balances@, t2.balances@);
    assert forall|a: int, b: int|
        #![trigger t1.balances@[a], t1.balances@[b]]
        #![trigger t2.balances@[a], t2.balances@[b]]
        0 <= a < b < t1.balances@.len() implies ((t1.balances@[a].user@ != t1.balances@[b].user@)
        == (t2.balances@[a].user@ != t2.balances@[b].user@)) by {
        assert(view_seq(t1.balances@)[a] == t1.balances@[a]@);
        assert(view_seq(t1.balances@)[b] == t1.balances@[b]@);
        assert(view_seq(t2.balances@)[a] == t2.balances@[a]@);
        assert(view_seq(t2.balances@)[b] == t2.balances@[b]@);
    }
    assert forall|a: int, b: int|
        #![trigger t1.token_metadata@[a], t1.token_metadata@[b]]
        #![trigger t2.token_metadata@[a], t2.token_metadata@[b]]
        0 <= a < b < t1.token_metadata@.len() implies ((t1.token_metadata@[a].key@
        != t1.token_metadata@[b].key@) == (t2.token_metadata@[a].key@
        != t2.token_metadata@[b].key@)) by {
        assert(view_seq(t1.token_metadata@)[a] == t1.token_metadata@[a]@);
        assert(view_seq(t1.token_metadata@)[b] == t1.token_metadata@[b]@);
        assert(view_seq(t2.token_metadata@)[a] == t2.token_metadata@[a]@);
        assert(view_seq(t2.token_metadata@)[b] == t2.token_metadata@[b]@);
    }
}

/// No well-formed token record encodes to these bytes.
pub open spec fn no_wf_mint_encoding(bytes: Seq<u8>) -> bool {
    forall|q: TokenMintDetails|
        mint_wf(q) && enc_wf_mint(q@) ==> #[trigger] spec_enc_mint(q@) != bytes
}

/// Strict decode of the token record: the buffer must be exactly one
/// well-formed encoding, else `DecodeError`.
pub fn decode_mint(bytes: &Vec<u8>) -> (r: Result<TokenMintDetails, PredictionMarketError>)
    ensures
        match r {
            Ok(t) => {
                &&& mint_wf(t)
                &&& spec_parse_mint(bytes@, 0) == Some((t@, bytes@.len() as int))
            },
            Err(e) => {
                &&& e == PredictionMarketError::DecodeError
                &&& no_wf_mint_encoding(bytes@)
            },
        },
{
    match read_mint(bytes, 0) {
        None => {
            proof {
                assert forall|q: TokenMintDetails|
                    mint_wf(q) && enc_wf_mint(q@) implies #[trigger] spec_enc_mint(q@)
                    != bytes@ by {
                    if spec_enc_mint(q@) == bytes@ {
                        assert(bytes@.subrange(0, bytes@.len() as int) =~= bytes@);
                        lemma_parse_enc_mint(q@, bytes@, 0);
                    }
                }
            }
            Err(PredictionMarketError::DecodeError)
        },
        Some((t, pend)) => {
            if pend != bytes.len() {
                proof {
                    assert forall|q: TokenMintDetails|
                        mint_wf(q) && enc_wf_mint(q@) implies #[trigger] spec_enc_mint(q@)
                        != bytes@ by {
                        if spec_enc_mint(q@) == bytes@ {
                            assert(bytes@.subrange(0, bytes@.len() as int) =~= bytes@);
                            lemma_parse_enc_mint(q@, bytes@, 0);
                        }
                    }
                }
                return Err(PredictionMarketError::DecodeError);
            }
            if !check_mint_wf(&t) {
                proof {
                    assert forall|q: TokenMintDetails|
                        mint_wf(q) && enc_wf_mint(q@) implies #[trigger] spec_enc_mint(q@)
                        != bytes@ by {
                        if spec_enc_mint(q@) == bytes@ {
                            assert(bytes@.subrange(0, bytes@.len() as int) =~= bytes@);
                            lemma_parse_enc_mint(q@, bytes@, 0);
                            assert(t@ == q@);
                            lemma_mint_wf_view(t, q);
                        }
                    }
                }
                return Err(PredictionMarketError::DecodeError);
            }
            Ok(t)
        },
    }
}

/// Executable decision of `enc_wf_mint`.
pub fn check_encodable_mint(t: &TokenMintDetails) -> (r: bool)
    ensures
        r == enc_wf_mint(t@),
{
    if t.ticker.len() > u32::MAX as usize {
        return false;
    }
    if t.balances.len() > u32::MAX as usize {
        proof {
            assert(view_seq(t.balances@).len() == t.balances@.len());
        }
        return false;
    }
    let nm = t.token_metadata.len();
    if nm > u32::MAX as usize {
        proof {
            assert(view_seq(t.token_metadata@).len() == t.token_metadata@.len());
        }
        return false;
    }
    let mut i: usize = 0;
    while i < nm
        invariant
            0 <= i <= nm,
            nm == t.token_metadata@.len(),
            nm <= u32::MAX,
            forall|k: int|
                0 <= k < i ==> <MetadataEntry as crate::codec::Codec>::enc_wf(
                    (#[trigger] t.token_metadata@[k])@,
                ),
        decreases nm - i,
    {
        if t.token_metadata[i].key.len() > u32::MAX as usize {
            proof {
                assert(view_seq(t.token_metadata@).len() == t.token_metadata@.len());
                assert(view_seq(t.token_metadata@)[i as int] == t.token_metadata@[i as int]@);
            }
            return false;
        }
        i += 1;
    }
    proof {
        assert(view_seq(t.token_metadata@).len() == t.token_metadata@.len());
        assert forall|m: int|
            0 <= m < t.token_metadata@.len() implies <MetadataEntry as crate::codec::Codec>::enc_wf(
            #[trigger] view_seq(t.token_metadata@)[m],
        ) by {
            assert(view_seq(t.token_metadata@)[m] == t.token_metadata@[m]@);
        }
        assert(view_seq(t.balances@).len() == t.balances@.len());
        assert forall|m: int|
            0 <= m < t.balances@.len() implies <BalanceEntry as crate::codec::Codec>::enc_wf(
            #[trigger] view_seq(t.balances@)[m],
        ) by {
            assert(view_seq(t.balances@)[m] == t.balances@[m]@);
        }
    }
    true
}

/// Deterministic encode of the token record.
pub fn encode_mint(t: &TokenMintDetails) -> (r: Result<Vec<u8>, PredictionMarketError>)
    ensures
        match r {
            Ok(bytes) => enc_wf_mint(t@) && bytes@ == spec_enc_mint(t@),
            Err(e) => e == PredictionMarketError::EncodeError && !enc_wf_mint(t@),
        },
{
    if !check_encodable_mint(t) {
        return Err(PredictionMarketError::EncodeError);
    }
    let mut out: Vec<u8> = Vec::new();
    write_mint(t, &mut out);
    proof {
        assert(out@ =~= spec_enc_mint(t@));
    }
    Ok(out)
}

/// Encode the token record and persist it with the growth-only policy.
pub fn store_mint(slot: &mut Vec<u8>, t: &TokenMintDetails) -> (r: Result<
    (),
    PredictionMarketError,
>)
    ensures
        final(slot)@.len() >= old(slot)@.len(),
        match r {
            Ok(()) => {
                let enc = spec_enc_mint(t@);
                &&& enc_wf_mint(t@)
                &&& final(slot)@.len() == vstd::math::max(old(slot)@.len() as int, enc.len() as int)
                &&& final(slot)@.subrange(0, enc.len() as int) == enc
                &&& enc.len() <= old(slot)@.len() ==> final(slot)@.subrange(
                    enc.len() as int,
                    old(slot)@.len() as int,
                ) == old(slot)@.subrange(enc.len() as int, old(slot)@.len() as int)
            },
            Err(e) => {
                &&& e == PredictionMarketError::EncodeError
                &&& !enc_wf_mint(t@)
                &&& *final(slot) == *old(slot)
            },
        },
{
    match encode_mint(t) {
        Err(e) => Err(e),
        Ok(data) => {
            write_into_slot(slot, &data);
            Ok(())
        },
    }
}

/// A token record that a prefix load of these bytes yields.
pub open spec fn loaded_mint_from(bytes: Seq<u8>, t: TokenMintDetails) -> bool {
    spec_parse_mint(bytes, 0) matches Some(pr) && pr.0 == t@
}

/// No well-formed token record loads from these bytes.
pub open spec fn no_wf_loadable_mint(bytes: Seq<u8>) -> bool {
    forall|q: TokenMintDetails|
        mint_wf(q) && enc_wf_mint(q@) ==> !#[trigger] loaded_mint_from(bytes, q)
}

/// The slot bytes after a successful store of `t`, as for the aggregate.
pub open spec fn slot_holds_mint(bytes: Seq<u8>, t: TokenMintDetails, old_len: int) -> bool {
    let enc = spec_enc_mint(t@);
    &&& bytes.subrange(0, enc.len() as int) == enc
    &&& bytes.len() == vstd::math::max(old_len, enc.len() as int)
}

/// Load the token record from a slot, ignoring stale bytes past its
/// encoding, and admit only well-formed state.
pub fn load_mint(slot: &Vec<u8>) -> (r: Result<TokenMintDetails, PredictionMarketError>)
    ensures
        match r {
            Ok(t) => {
                &&& mint_wf(t)
                &&& loaded_mint_from(slot@, t)
            },
            Err(e) => {
                &&& e == PredictionMarketError::DecodeError
                &&& no_wf_loadable_mint(slot@)
            },
        },
{
    match read_mint(slot, 0) {
        None => Err(PredictionMarketError::DecodeError),
        Some((t, _pend)) => {
            if !check_mint_wf(&t) {
                proof {
                    assert forall|q: TokenMintDetails|
                        mint_wf(q) && enc_wf_mint(q@) implies !(#[trigger] spec_parse_mint(
                        slot@,
                        0,
                    ) matches Some(pr) && pr.0 == q@) by {
                        if spec_parse_mint(slot@, 0) matches Some(pr) && pr.0 == q@ {
                            assert(t@ == q@);
                            lemma_mint_wf_view(t, q);
                        }
                    }
                }
                return Err(PredictionMarketError::DecodeError);
            }
            Ok(t)
        },
    }
}

} // verus!
