//! Codec of the instruction surface: one opcode byte selects a handler, and
//! the remaining bytes are the encoded parameter record of that handler.

use vstd::prelude::*;
use crate::codec::{
    lemma_parse_enc_u8, lemma_parse_enc_u64, lemma_parse_enc_vec, lemma_subrange_split,
    read_bytes32, read_u8, read_u64, read_vec, spec_enc_u8, spec_enc_u64, spec_enc_vec,
    spec_parse_bytes32, spec_parse_u8, spec_parse_u64, spec_parse_vec, view_seq, write_bytes32,
    write_u8, write_u64, write_vec,
};
use crate::codec_events::{
    lemma_parse_enc_bet_type, read_bet_type, spec_enc_bet_type, spec_parse_bet_type,
    write_bet_type,
};
use crate::mint::InitializeMintInput;
use crate::types::{
    BetOnPredictionEventParams, ClosePredictionEventParams, MintTokenParams, PredictionEventParams,
    PredictionMarketError,
};

verus! {

/// One decoded instruction: the opcode's handler together with its decoded
/// parameter record.
pub enum PredictionMarketInstruction {
    CreateEvent(PredictionEventParams),
    CloseEvent(ClosePredictionEventParams),
    PlaceBet(BetOnPredictionEventParams),
    InitializeMint(InitializeMintInput),
    MintTokens(MintTokenParams),
    BurnTokens(MintTokenParams),
}

pub open spec fn spec_parse_create_params(s: Seq<u8>, pos: int) -> Option<(
    (Seq<u8>, u64, u8),
    int,
)> {
    match spec_parse_bytes32(s, pos) {
        None => None,
        Some((unique_id, p1)) => match spec_parse_u64(s, p1) {
            None => None,
            Some((expiry, p2)) => match spec_parse_u8(s, p2) {
                None => None,
                Some((n, p3)) => Some(((unique_id, expiry, n), p3)),
            },
        },
    }
}

/// Decode the parameter record of a create-event instruction; strict: the
/// whole buffer must be consumed.
pub fn decode_create_params(bytes: &Vec<u8>) -> (r: Result<
    PredictionEventParams,
    PredictionMarketError,
>)
    ensures
        match r {
            Ok(p) => spec_parse_create_params(bytes@, 0) == Some(
                ((p.unique_id@, p.expiry_timestamp, p.num_outcomes), bytes@.len() as int),
            ),
            Err(e) => {
                &&& e == PredictionMarketError::DecodeError
                &&& !(spec_parse_create_params(bytes@, 0) matches Some(pr) && pr.1 == bytes@.len())
            },
        },
{
    let (unique_id, p1) = match read_bytes32(bytes, 0) {
        None => {
            return Err(PredictionMarketError::DecodeError);
        },
        Some(x) => x,
    };
    let (expiry_timestamp, p2) = match read_u64(bytes, p1) {
        None => {
            return Err(PredictionMarketError::DecodeError);
        },
        Some(x) => x,
    };
    let (num_outcomes, p3) = match read_u8(bytes, p2) {
        None => {
            return Err(PredictionMarketError::DecodeError);
        },
        Some(x) => x,
    };
    if p3 != bytes.len() {
        return Err(PredictionMarketError::DecodeError);
    }
    Ok(PredictionEventParams { unique_id, expiry_timestamp, num_outcomes })
}

pub open spec fn spec_parse_close_params(s: Seq<u8>, pos: int) -> Option<(Seq<u8>, int)> {
    spec_parse_bytes32(s, pos)
}

/// Decode the parameter record of a close-event instruction; strict.
pub fn decode_close_params(bytes: &Vec<u8>) -> (r: Result<
    ClosePredictionEventParams,
    PredictionMarketError,
>)
    ensures
        match r {
            Ok(p) => spec_parse_close_params(bytes@, 0) == Some((p.unique_id@, bytes@.len() as int)),
            Err(e) => {
                &&& e == PredictionMarketError::DecodeError
                &&& !(spec_parse_close_params(bytes@, 0) matches Some(pr) && pr.1 == bytes@.len())
            },
        },
{
    let (unique_id, p1) = match read_bytes32(bytes, 0) {
        None => {
            return Err(PredictionMarketError::DecodeError);
        },
        Some(x) => x,
    };
    if p1 != bytes.len() {
        return Err(PredictionMarketError::DecodeError);
    }
    Ok(ClosePredictionEventParams { unique_id })
}

pub open spec fn spec_parse_bet_params(s: Seq<u8>, pos: int) -> Option<(
    (Seq<u8>, u8, u64, crate::types::BetType),
    int,
)> {
    match spec_parse_bytes32(s, pos) {
        None => None,
        Some((unique_id, p1)) => match spec_parse_u8(s, p1) {
            None => None,
            Some((outcome_id, p2)) => match spec_parse_u64(s, p2) {
                None => None,
                Some((amount, p3)) => match spec_parse_bet_type(s, p3) {
                    None => None,
                    Some((side, p4)) => Some(((unique_id, outcome_id, amount, side), p4)),
                },
            },
        },
    }
}

/// Decode the parameter record of a place-bet instruction; strict.
pub fn decode_bet_params(bytes: &Vec<u8>) -> (r: Result<
    BetOnPredictionEventParams,
    PredictionMarketError,
>)
    ensures
        match r {
            Ok(p) => spec_parse_bet_params(bytes@, 0) == Some(
                ((p.unique_id@, p.outcome_id, p.amount, p.side), bytes@.len() as int),
            ),
            Err(e) => {
                &&& e == PredictionMarketError::DecodeError
                &&& !(spec_parse_bet_params(bytes@, 0) matches Some(pr) && pr.1 == bytes@.len())
            },
        },
{
    let (unique_id, p1) = match read_bytes32(bytes, 0) {
        None => {
            return Err(PredictionMarketError::DecodeError);
        },
        Some(x) => x,
    };
    let (outcome_id, p2) = match read_u8(bytes, p1) {
        None => {
            return Err(PredictionMarketError::DecodeError);
        },
        Some(x) => x,
    };
    let (amount, p3) = match read_u64(bytes, p2) {
        None => {
            return Err(PredictionMarketError::DecodeError);
        },
        Some(x) => x,
    };
    let (side, p4) = match read_bet_type(bytes, p3) {
        None => {
            return Err(PredictionMarketError::DecodeError);
        },
        Some(x) => x,
    };
    if p4 != bytes.len() {
        return Err(PredictionMarketError::DecodeError);
    }
    Ok(BetOnPredictionEventParams { unique_id, outcome_id, amount, side })
}

pub open spec fn spec_parse_init_mint_params(s: Seq<u8>, pos: int) -> Option<(
    (Seq<u8>, u64, Seq<u8>, u8),
    int,
)> {
    match spec_parse_bytes32(s, pos) {
        None => None,
        Some((owner, p1)) => match spec_parse_u64(s, p1) {
            None => None,
            Some((supply, p2)) => match spec_parse_vec::<u8>(s, p2) {
                None => None,
                Some((ticker, p3)) => match spec_parse_u8(s, p3) {
                    None => None,
                    Some((decimals, p4)) => Some(((owner, supply, ticker, decimals), p4)),
                },
            },
        },
    }
}

/// Decode the parameter record of an initialize-mint instruction; strict.
pub fn decode_init_mint_params(bytes: &Vec<u8>) -> (r: Result<
    InitializeMintInput,
    PredictionMarketError,
>)
    ensures
        match r {
            Ok(p) => spec_parse_init_mint_params(bytes@, 0) == Some(
                ((p.owner@, p.supply, p.ticker@, p.decimals), bytes@.len() as int),
            ),
            Err(e) => {
                &&& e == PredictionMarketError::DecodeError
                &&& !(spec_parse_init_mint_params(bytes@, 0) matches Some(pr) && pr.1
                    == bytes@.len())
            },
        },
{
    let (owner, p1) = match read_bytes32(bytes, 0) {
        None => {
            return Err(PredictionMarketError::DecodeError);
        },
        Some(x) => x,
    };
    let (supply, p2) = match read_u64(bytes, p1) {
        None => {
            return Err(PredictionMarketError::DecodeError);
        },
        Some(x) => x,
    };
    let (ticker, p3) = match read_vec::<u8>(bytes, p2) {
        None => {
            return Err(PredictionMarketError::DecodeError);
        },
        Some(x) => x,
    };
    let (decimals, p4) = match read_u8(bytes, p3) {
        None => {
            return Err(PredictionMarketError::DecodeError);
        },
        Some(x) => x,
    };
    if p4 != bytes.len() {
        return Err(PredictionMarketError::DecodeError);
    }
    proof {
        assert(view_seq(ticker@) =~= ticker@);
    }
    Ok(InitializeMintInput { owner, supply, ticker, decimals })
}

pub open spec fn spec_parse_mint_token_params(s: Seq<u8>, pos: int) -> Option<(u64, int)> {
    spec_parse_u64(s, pos)
}

/// Decode the parameter record of a mint-tokens or burn-tokens instruction;
/// strict.
pub fn decode_mint_token_params(bytes: &Vec<u8>) -> (r: Result<
    MintTokenParams,
    PredictionMarketError,
>)
    ensures
        match r {
            Ok(p) => spec_parse_mint_token_params(bytes@, 0) == Some(
                (p.amount, bytes@.len() as int),
            ),
            Err(e) => {
                &&& e == PredictionMarketError::DecodeError
                &&& !(spec_parse_mint_token_params(bytes@, 0) matches Some(pr) && pr.1
                    == bytes@.len())
            },
        },
{
    let (amount, p1) = match read_u64(bytes, 0) {
        None => {
            return Err(PredictionMarketError::DecodeError);
        },
        Some(x) => x,
    };
    if p1 != bytes.len() {
        return Err(PredictionMarketError::DecodeError);
    }
    Ok(MintTokenParams { amount })
}

// ---------------------------------------------------------------------------
// parameter-record encoders, the inverse of the parsers above
// ---------------------------------------------------------------------------
pub open spec fn spec_enc_create_params(unique_id: Seq<u8>, expiry: u64, n: u8) -> Seq<u8> {
    unique_id + spec_enc_u64(expiry) + spec_enc_u8(n)
}

pub open spec fn spec_enc_close_params(unique_id: Seq<u8>) -> Seq<u8> {
    unique_id
}

pub open spec fn spec_enc_bet_params(
    unique_id: Seq<u8>,
    outcome_id: u8,
    amount: u64,
    side: crate::types::BetType,
) -> Seq<u8> {
    unique_id + spec_enc_u8(outcome_id) + spec_enc_u64(amount) + spec_enc_bet_type(side)
}

pub open spec fn spec_enc_init_mint_params(
    owner: Seq<u8>,
    supply: u64,
    ticker: Seq<u8>,
    decimals: u8,
) -> Seq<u8> {
    owner + spec_enc_u64(supply) + spec_enc_vec::<u8>(ticker) + spec_enc_u8(decimals)
}

pub open spec fn spec_enc_mint_token_params(amount: u64) -> Seq<u8> {
    spec_enc_u64(amount)
}

pub proof fn lemma_parse_enc_create_params(s: Seq<u8>, pos: int, unique_id: Seq<u8>, expiry: u64, n: u8)
    requires
        unique_id.len() == 32,
        0 <= pos,
        pos + spec_enc_create_params(unique_id, expiry, n).len() <= s.len(),
        s.subrange(pos, pos + spec_enc_create_params(unique_id, expiry, n).len() as int)
            == spec_enc_create_params(unique_id, expiry, n),
    ensures
        spec_parse_create_params(s, pos) == Some(
            ((unique_id, expiry, n), pos + spec_enc_create_params(unique_id, expiry, n).len() as int),
        ),
{
    vstd::bytes::lemma_auto_spec_u64_to_from_le_bytes();
    let e2 = spec_enc_u64(expiry);
    let e3 = spec_enc_u8(n);
    assert(spec_enc_create_params(unique_id, expiry, n) =~= unique_id + (e2 + e3));
    lemma_subrange_split(s, pos, unique_id, e2 + e3);
    lemma_subrange_split(s, pos + 32, e2, e3);
    lemma_parse_enc_u64(s, pos + 32, expiry);
    lemma_parse_enc_u8(s, pos + 40, n);
}

pub proof fn lemma_parse_enc_bet_params(
    s: Seq<u8>,
    pos: int,
    unique_id: Seq<u8>,
    outcome_id: u8,
    amount: u64,
    side: crate::types::BetType,
)
    requires
        unique_id.len() == 32,
        0 <= pos,
        pos + spec_enc_bet_params(unique_id, outcome_id, amount, side).len() <= s.len(),
        s.subrange(pos, pos + spec_enc_bet_params(unique_id, outcome_id, amount, side).len() as int)
            == spec_enc_bet_params(unique_id, outcome_id, amount, side),
    ensures
        spec_parse_bet_params(s, pos) == Some(
            (
                (unique_id, outcome_id, amount, side),
                pos + spec_enc_bet_params(unique_id, outcome_id, amount, side).len() as int,
            ),
        ),
{
    vstd::bytes::lemma_auto_spec_u64_to_from_le_bytes();
    let e2 = spec_enc_u8(outcome_id);
    let e3 = spec_enc_u64(amount);
    let e4 = spec_enc_bet_type(side);
    assert(spec_enc_bet_params(unique_id, outcome_id, amount, side) =~= unique_id + (e2 + (e3
        + e4)));
    lemma_subrange_split(s, pos, unique_id, e2 + (e3 + e4));
    lemma_subrange_split(s, pos + 32, e2, e3 + e4);
    lemma_subrange_split(s, pos + 33, e3, e4);
    lemma_parse_enc_u8(s, pos + 32, outcome_id);
    lemma_parse_enc_u64(s, pos + 33, amount);
    lemma_parse_enc_bet_type(s, pos + 41, side);
}

pub proof fn lemma_parse_enc_init_mint_params(
    s: Seq<u8>,
    pos: int,
    owner: Seq<u8>,
    supply: u64,
    ticker: Seq<u8>,
    decimals: u8,
)
    requires
        owner.len() == 32,
        ticker.len() <= u32::MAX,
        0 <= pos,
        pos + spec_enc_init_mint_params(owner, supply, ticker, decimals).len() <= s.len(),
        s.subrange(
            pos,
            pos + spec_enc_init_mint_params(owner, supply, ticker, decimals).len() as int,
        ) == spec_enc_init_mint_params(owner, supply, ticker, decimals),
    ensures
        spec_parse_init_mint_params(s, pos) == Some(
            (
                (owner, supply, ticker, decimals),
                pos + spec_enc_init_mint_params(owner, supply, ticker, decimals).len() as int,
            ),
        ),
{
    vstd::bytes::lemma_auto_spec_u64_to_from_le_bytes();
    let e2 = spec_enc_u64(supply);
    let e3 = spec_enc_vec::<u8>(ticker);
    let e4 = spec_enc_u8(decimals);
    assert(spec_enc_init_mint_params(owner, supply, ticker, decimals) =~= owner + (e2 + (e3
        + e4)));
    lemma_subrange_split(s, pos, owner, e2 + (e3 + e4));
    lemma_subrange_split(s, pos + 32, e2, e3 + e4);
    lemma_subrange_split(s, pos + 40, e3, e4);
    lemma_parse_enc_u64(s, pos + 32, supply);
    assert forall|i: int| 0 <= i < ticker.len() implies <u8 as crate::codec::Codec>::enc_wf(
        #[trigger] ticker[i],
    ) by {}
    lemma_parse_enc_vec::<u8>(ticker, s, pos + 40);
    lemma_parse_enc_u8(s, pos + 40 + e3.len() as int, decimals);
}

/// Encode one whole instruction, the inverse of `parse_instruction`.  Only
/// an initialize-mint whose ticker cannot fit its `u32` length header is
/// refused.
pub fn encode_instruction(inst: &PredictionMarketInstruction) -> (r: Result<
    Vec<u8>,
    PredictionMarketError,
>)
    ensures
        match r {
            Ok(bytes) => bytes@ == spec_enc_instruction(*inst),
            Err(e) => {
                &&& e == PredictionMarketError::EncodeError
                &&& (*inst matches PredictionMarketInstruction::InitializeMint(p) && p.ticker@.len()
                    > u32::MAX)
            },
        },
{
    let mut out: Vec<u8> = Vec::new();
    match inst {
        PredictionMarketInstruction::CreateEvent(p) => {
            write_u8(&mut out, 1);
            write_bytes32(&mut out, &p.unique_id);
            write_u64(&mut out, p.expiry_timestamp);
            write_u8(&mut out, p.num_outcomes);
        },
        PredictionMarketInstruction::CloseEvent(p) => {
            write_u8(&mut out, 2);
            write_bytes32(&mut out, &p.unique_id);
        },
        PredictionMarketInstruction::PlaceBet(p) => {
            write_u8(&mut out, 3);
            write_bytes32(&mut out, &p.unique_id);
            write_u8(&mut out, p.outcome_id);
            write_u64(&mut out, p.amount);
            write_bet_type(&mut out, p.side);
        },
        PredictionMarketInstruction::InitializeMint(p) => {
            if p.ticker.len() > u32::MAX as usize {
                return Err(PredictionMarketError::EncodeError);
            }
            write_u8(&mut out, 4);
            write_bytes32(&mut out, &p.owner);
            write_u64(&mut out, p.supply);
            proof {
                assert(view_seq(p.ticker@) =~= p.ticker@);
            }
            write_vec::<u8>(&p.ticker, &mut out);
            write_u8(&mut out, p.decimals);
        },
        PredictionMarketInstruction::MintTokens(p) => {
            write_u8(&mut out, 5);
            write_u64(&mut out, p.amount);
        },
        PredictionMarketInstruction::BurnTokens(p) => {
            write_u8(&mut out, 6);
            write_u64(&mut out, p.amount);
        },
    }
    proof {
        assert(out@ =~= spec_enc_instruction(*inst));
    }
    Ok(out)
}

/// The encoded form of one whole instruction: its opcode, then its
/// parameter record.
pub open spec fn spec_enc_instruction(inst: PredictionMarketInstruction) -> Seq<u8> {
    seq![opcode_of_instruction(inst)] + match inst {
        PredictionMarketInstruction::CreateEvent(p) => spec_enc_create_params(
            p.unique_id@,
            p.expiry_timestamp,
            p.num_outcomes,
        ),
        PredictionMarketInstruction::CloseEvent(p) => spec_enc_close_params(p.unique_id@),
        PredictionMarketInstruction::PlaceBet(p) => spec_enc_bet_params(
            p.unique_id@,
            p.outcome_id,
            p.amount,
            p.side,
        ),
        PredictionMarketInstruction::InitializeMint(p) => spec_enc_init_mint_params(
            p.owner@,
            p.supply,
            p.ticker@,
            p.decimals,
        ),
        PredictionMarketInstruction::MintTokens(p) => spec_enc_mint_token_params(p.amount),
        PredictionMarketInstruction::BurnTokens(p) => spec_enc_mint_token_params(p.amount),
    }
}

/// Which opcode selects which handler.
pub open spec fn opcode_of_instruction(inst: PredictionMarketInstruction) -> u8 {
    match inst {
        PredictionMarketInstruction::CreateEvent(_) => 1,
        PredictionMarketInstruction::CloseEvent(_) => 2,
        PredictionMarketInstruction::PlaceBet(_) => 3,
        PredictionMarketInstruction::InitializeMint(_) => 4,
        PredictionMarketInstruction::MintTokens(_) => 5,
        PredictionMarketInstruction::BurnTokens(_) => 6,
    }
}

/// The instruction codec round trip: an encoded instruction carries its
/// opcode in its first byte, and its parameter record parses back from the
/// remaining bytes, consuming all of them — so `parse_instruction` accepts
/// exactly what `encode_instruction` produced.
pub proof fn lemma_instruction_round_trip(inst: PredictionMarketInstruction)
    requires
        match inst {
            PredictionMarketInstruction::InitializeMint(p) => p.ticker@.len() <= u32::MAX,
            _ => true,
        },
    ensures
        ({
            let bytes = spec_enc_instruction(inst);
            let rest = bytes.subrange(1, bytes.len() as int);
            let n = rest.len() as int;
            &&& bytes.len() > 0
            &&& bytes[0] == opcode_of_instruction(inst)
            &&& match inst {
                PredictionMarketInstruction::CreateEvent(p) => spec_parse_create_params(rest, 0)
                    == Some(((p.unique_id@, p.expiry_timestamp, p.num_outcomes), n)),
                PredictionMarketInstruction::CloseEvent(p) => spec_parse_close_params(rest, 0)
                    == Some((p.unique_id@, n)),
                PredictionMarketInstruction::PlaceBet(p) => spec_parse_bet_params(rest, 0) == Some(
                    ((p.unique_id@, p.outcome_id, p.amount, p.side), n),
                ),
                PredictionMarketInstruction::InitializeMint(p) => spec_parse_init_mint_params(
                    rest,
                    0,
                ) == Some(((p.owner@, p.supply, p.ticker@, p.decimals), n)),
                PredictionMarketInstruction::MintTokens(p) => spec_parse_mint_token_params(rest, 0)
                    == Some((p.amount, n)),
                PredictionMarketInstruction::BurnTokens(p) => spec_parse_mint_token_params(rest, 0)
                    == Some((p.amount, n)),
            }
        }),
{
    vstd::bytes::lemma_auto_spec_u64_to_from_le_bytes();
    let bytes = spec_enc_instruction(inst);
    let rest = bytes.subrange(1, bytes.len() as int);
    match inst {
        PredictionMarketInstruction::CreateEvent(p) => {
            assert(rest =~= spec_enc_create_params(p.unique_id@, p.expiry_timestamp, p.num_outcomes));
            assert(rest.subrange(0, rest.len() as int) =~= rest);
            lemma_parse_enc_create_params(rest, 0, p.unique_id@, p.expiry_timestamp, p.num_outcomes);
        },
        PredictionMarketInstruction::CloseEvent(p) => {
            assert(rest =~= p.unique_id@);
            assert(rest.subrange(0, 32) =~= p.unique_id@);
        },
        PredictionMarketInstruction::PlaceBet(p) => {
            assert(rest =~= spec_enc_bet_params(p.unique_id@, p.outcome_id, p.amount, p.side));
            assert(rest.subrange(0, rest.len() as int) =~= rest);
            lemma_parse_enc_bet_params(rest, 0, p.unique_id@, p.outcome_id, p.amount, p.side);
        },
        PredictionMarketInstruction::InitializeMint(p) => {
            assert(rest =~= spec_enc_init_mint_params(p.owner@, p.supply, p.ticker@, p.decimals));
            assert(rest.subrange(0, rest.len() as int) =~= rest);
            lemma_parse_enc_init_mint_params(rest, 0, p.owner@, p.supply, p.ticker@, p.decimals);
        },
        PredictionMarketInstruction::MintTokens(p) => {
            assert(rest =~= spec_enc_u64(p.amount));
            assert(rest.subrange(0, 8) =~= spec_enc_u64(p.amount));
            lemma_parse_enc_u64(rest, 0, p.amount);
        },
        PredictionMarketInstruction::BurnTokens(p) => {
            assert(rest =~= spec_enc_u64(p.amount));
            assert(rest.subrange(0, 8) =~= spec_enc_u64(p.amount));
            lemma_parse_enc_u64(rest, 0, p.amount);
        },
    }
}

/// Decode one whole instruction: the opcode byte, then that opcode's
/// parameter record, which must consume the rest of the buffer.
pub fn parse_instruction(bytes: &Vec<u8>) -> (r: Result<
    PredictionMarketInstruction,
    PredictionMarketError,
>)
    ensures
        match r {
            Ok(inst) => {
                &&& bytes@.len() > 0
                &&& bytes@[0] == opcode_of_instruction(inst)
                &&& ({
                    let rest = bytes@.subrange(1, bytes@.len() as int);
                    let n = rest.len() as int;
                    match inst {
                        PredictionMarketInstruction::CreateEvent(p) => spec_parse_create_params(
                            rest,
                            0,
                        ) == Some(((p.unique_id@, p.expiry_timestamp, p.num_outcomes), n)),
                        PredictionMarketInstruction::CloseEvent(p) => spec_parse_close_params(
                            rest,
                            0,
                        ) == Some((p.unique_id@, n)),
                        PredictionMarketInstruction::PlaceBet(p) => spec_parse_bet_params(rest, 0)
                            == Some(((p.unique_id@, p.outcome_id, p.amount, p.side), n)),
                        PredictionMarketInstruction::InitializeMint(p) => spec_parse_init_mint_params(
                            rest,
                            0,
                        ) == Some(((p.owner@, p.supply, p.ticker@, p.decimals), n)),
                        PredictionMarketInstruction::MintTokens(p) => spec_parse_mint_token_params(
                            rest,
                            0,
                        ) == Some((p.amount, n)),
                        PredictionMarketInstruction::BurnTokens(p) => spec_parse_mint_token_params(
                            rest,
                            0,
                        ) == Some((p.amount, n)),
                    }
                })
            },
            Err(e) => {
                &&& e == PredictionMarketError::DecodeError
                &&& (bytes@.len() > 0 ==> ({
                    let op = bytes@[0];
                    let rest = bytes@.subrange(1, bytes@.len() as int);
                    let n = rest.len() as int;
                    &&& (op == 1 ==> !(spec_parse_create_params(rest, 0) matches Some(pr) && pr.1
                        == n))
                    &&& (op == 2 ==> !(spec_parse_close_params(rest, 0) matches Some(pr) && pr.1
                        == n))
                    &&& (op == 3 ==> !(spec_parse_bet_params(rest, 0) matches Some(pr) && pr.1
                        == n))
                    &&& (op == 4 ==> !(spec_parse_init_mint_params(rest, 0) matches Some(pr)
                        && pr.1 == n))
                    &&& (op == 5 ==> !(spec_parse_mint_token_params(rest, 0) matches Some(pr)
                        && pr.1 == n))
                    &&& (op == 6 ==> !(spec_parse_mint_token_params(rest, 0) matches Some(pr)
                        && pr.1 == n))
                }))
            },
        },
{
    if bytes.len() == 0 {
        return Err(PredictionMarketError::DecodeError);
    }
    let opcode = bytes[0];
    let mut rest: Vec<u8> = Vec::new();
    let mut i: usize = 1;
    let n = bytes.len();
    while i < n
        invariant
            1 <= i <= n,
            n == bytes@.len(),
            rest@ == bytes@.subrange(1, i as int),
        decreases n - i,
    {
        proof {
            assert(bytes@.subrange(1, i + 1) =~= bytes@.subrange(1, i as int).push(
                bytes@[i as int],
            ));
        }
        rest.push(bytes[i]);
        i += 1;
    }
    if opcode == 1 {
        match decode_create_params(&rest) {
            Ok(p) => Ok(PredictionMarketInstruction::CreateEvent(p)),
            Err(e) => Err(e),
        }
    } else if opcode == 2 {
        match decode_close_params(&rest) {
            Ok(p) => Ok(PredictionMarketInstruction::CloseEvent(p)),
            Err(e) => Err(e),
        }
    } else if opcode == 3 {
        match decode_bet_params(&rest) {
            Ok(p) => Ok(PredictionMarketInstruction::PlaceBet(p)),
            Err(e) => Err(e),
        }
    } else if opcode == 4 {
        match decode_init_mint_params(&rest) {
            Ok(p) => Ok(PredictionMarketInstruction::InitializeMint(p)),
            Err(e) => Err(e),
        }
    } else if opcode == 5 {
        match decode_mint_token_params(&rest) {
            Ok(p) => Ok(PredictionMarketInstruction::MintTokens(p)),
            Err(e) => Err(e),
        }
    } else if opcode == 6 {
        match decode_mint_token_params(&rest) {
            Ok(p) => Ok(PredictionMarketInstruction::BurnTokens(p)),
            Err(e) => Err(e),
        }
    } else {
        Err(PredictionMarketError::DecodeError)
    }
}

} // verus!
