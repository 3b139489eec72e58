//! Checks of the persistence codec, the growth-only storage policy, and the
//! call handlers working over raw storage slots.

use prediction_market::codec_params::{
    encode_instruction, parse_instruction, PredictionMarketInstruction,
};
use prediction_market::events::{create_event, place_bet, resolve_event};
use prediction_market::handlers::{
    process_burn_tokens, process_claim_winnings, process_close_event, process_create_event,
    process_initialize_mint, process_mint_tokens, process_place_bet,
};
use prediction_market::mint::{
    balance_of, mint_tokens, InitializeMintInput, MintStatus, TokenMintDetails,
};
use prediction_market::storage::{
    decode_mint, decode_predictions, encode_mint, encode_predictions, load_mint, load_predictions,
    store_mint, store_predictions,
};
use prediction_market::types::{
    BetOnPredictionEventParams, BetType, ClosePredictionEventParams, EventStatus, MintTokenParams,
    PredictionEventParams, PredictionMarketError, Predictions, Pubkey,
};

fn key(tag: u8) -> Pubkey {
    let mut k = [0u8; 32];
    k[0] = tag;
    k
}

fn id(tag: u8) -> [u8; 32] {
    let mut k = [0u8; 32];
    k[31] = tag;
    k
}

fn empty_predictions() -> Predictions {
    Predictions { total_predictions: 0, predictions: Vec::new() }
}

fn fresh_mint(supply: u64) -> TokenMintDetails {
    TokenMintDetails::new(
        InitializeMintInput::new(key(9), supply, b"TKN".to_vec(), 6),
        MintStatus::Ongoing,
        Vec::new(),
    )
}

fn populated_ledger() -> (Predictions, TokenMintDetails) {
    let mut p = empty_predictions();
    let mut t = fresh_mint(10_000);
    assert_eq!(mint_tokens(&mut t, &key(1), 100), Ok(()));
    assert_eq!(mint_tokens(&mut t, &key(2), 200), Ok(()));
    assert_eq!(create_event(&mut p, &key(9), true, &id(1), 1000, 2), Ok(()));
    assert_eq!(create_event(&mut p, &key(9), true, &id(2), 2000, 3), Ok(()));
    assert_eq!(place_bet(&mut p, &mut t, &id(1), 0, 30, &key(1), BetType::BUY, 5), Ok(()));
    assert_eq!(place_bet(&mut p, &mut t, &id(1), 1, 70, &key(2), BetType::BUY, 6), Ok(()));
    assert_eq!(place_bet(&mut p, &mut t, &id(1), 1, 20, &key(2), BetType::SELL, 7), Ok(()));
    assert_eq!(resolve_event(&mut p, &id(2), 1, &key(9)), Ok(()));
    (p, t)
}

#[test]
fn empty_aggregate_has_exact_encoding() {
    let p = empty_predictions();
    let bytes = encode_predictions(&p).unwrap();
    // a zero u32 counter and a zero u32 sequence length, little endian
    assert_eq!(bytes, vec![0u8; 8]);
}

#[test]
fn zero_length_buffer_bootstraps_empty_aggregate() {
    let bytes: Vec<u8> = Vec::new();
    let p = decode_predictions(&bytes).unwrap();
    assert_eq!(p.total_predictions, 0);
    assert!(p.predictions.is_empty());
}

#[test]
fn malformed_buffers_are_rejected() {
    assert_eq!(
        decode_predictions(&vec![1, 2, 3]).err(),
        Some(PredictionMarketError::DecodeError)
    );
    // a correct encoding with one trailing byte is no longer strict
    let (p, _) = populated_ledger();
    let mut bytes = encode_predictions(&p).unwrap();
    bytes.push(0);
    assert_eq!(
        decode_predictions(&bytes).err(),
        Some(PredictionMarketError::DecodeError)
    );
    // an aggregate whose counter disagrees with its contents is malformed
    let mut forged = encode_predictions(&empty_predictions()).unwrap();
    forged[0] = 7;
    assert_eq!(
        decode_predictions(&forged).err(),
        Some(PredictionMarketError::DecodeError)
    );
    assert_eq!(
        decode_mint(&vec![9; 10]).err(),
        Some(PredictionMarketError::DecodeError)
    );
}

#[test]
fn codec_round_trip_reproduces_bytes() {
    let (p, t) = populated_ledger();
    let bytes = encode_predictions(&p).unwrap();
    let decoded = decode_predictions(&bytes).unwrap();
    let again = encode_predictions(&decoded).unwrap();
    assert_eq!(again, bytes);

    let tbytes = encode_mint(&t).unwrap();
    let tdec = decode_mint(&tbytes).unwrap();
    let tagain = encode_mint(&tdec).unwrap();
    assert_eq!(tagain, tbytes);
}

#[test]
fn decoded_aggregate_matches_encoded_value() {
    let (p, _) = populated_ledger();
    let bytes = encode_predictions(&p).unwrap();
    let q = decode_predictions(&bytes).unwrap();
    assert_eq!(q.total_predictions, 2);
    assert_eq!(q.predictions.len(), 2);
    assert_eq!(q.predictions[0].unique_id, id(1));
    assert_eq!(q.predictions[0].total_pool_amount, 80);
    assert_eq!(q.predictions[0].outcomes[0].total_amount, 30);
    assert_eq!(q.predictions[0].outcomes[1].total_amount, 50);
    assert_eq!(q.predictions[1].status, EventStatus::Resolved);
    assert_eq!(q.predictions[1].winning_outcome, Some(1));
    let history = &q.predictions[0].outcomes[1].bets[0];
    assert_eq!(history.user, key(2));
    assert_eq!(history.bets.len(), 2);
    assert_eq!(history.bets[0].bet_type, BetType::BUY);
    assert_eq!(history.bets[1].bet_type, BetType::SELL);
    assert_eq!(history.bets[1].amount, 20);
}

#[test]
fn storage_grows_to_fit_and_never_shrinks() {
    let mut slot: Vec<u8> = Vec::new();
    let (p, _) = populated_ledger();
    let big = encode_predictions(&p).unwrap();
    assert_eq!(store_predictions(&mut slot, &p), Ok(()));
    // grown to exactly the encoded size
    assert_eq!(slot.len(), big.len());
    assert_eq!(slot, big);
    // a smaller aggregate never shrinks the slot
    let small = empty_predictions();
    assert_eq!(store_predictions(&mut slot, &small), Ok(()));
    assert_eq!(slot.len(), big.len());
    assert_eq!(&slot[..8], &[0u8; 8]);
    // the bytes past the new encoding survive as they were
    assert_eq!(&slot[8..], &big[8..]);
    // and the prefix load still reads the current record despite the tail
    let q = load_predictions(&slot).unwrap();
    assert_eq!(q.predictions.len(), 0);
    // growing again reaches exactly the larger size once more
    assert_eq!(store_predictions(&mut slot, &p), Ok(()));
    assert_eq!(slot.len(), big.len());
    assert_eq!(slot, big);
}

#[test]
fn mint_storage_round_trip() {
    let mut slot: Vec<u8> = Vec::new();
    let (_, t) = populated_ledger();
    assert_eq!(store_mint(&mut slot, &t), Ok(()));
    let q = load_mint(&slot).unwrap();
    assert_eq!(q.supply, 10_000);
    // 300 minted, and the sell of 20 minted the stake back
    assert_eq!(q.circulating_supply, 320);
    assert_eq!(q.ticker, b"TKN".to_vec());
    assert_eq!(q.decimals, 6);
    assert_eq!(balance_of(&q, &key(1)), 70);
    assert_eq!(balance_of(&q, &key(2)), 150);
}

#[test]
fn initialize_mint_handler_checks() {
    let program = key(7);
    let input = InitializeMintInput::new(key(9), 500, b"TKN".to_vec(), 2);
    let mut slot: Vec<u8> = vec![1];
    assert_eq!(
        process_initialize_mint(&mut slot, &program, &program, input),
        Err(PredictionMarketError::AccountAlreadyInitialized)
    );
    let input = InitializeMintInput::new(key(9), 500, b"TKN".to_vec(), 2);
    let mut slot: Vec<u8> = Vec::new();
    assert_eq!(
        process_initialize_mint(&mut slot, &key(8), &program, input),
        Err(PredictionMarketError::IllegalOwner)
    );
    assert!(slot.is_empty());
    let input = InitializeMintInput::new(key(9), 500, b"TKN".to_vec(), 2);
    assert_eq!(process_initialize_mint(&mut slot, &program, &program, input), Ok(()));
    let t = load_mint(&slot).unwrap();
    assert_eq!(t.owner, key(9));
    assert_eq!(t.supply, 500);
    assert_eq!(t.circulating_supply, 0);
    assert_eq!(t.status, MintStatus::Ongoing);
}

#[test]
fn handlers_run_full_lifecycle_over_slots() {
    let program = key(7);
    let mut event_slot: Vec<u8> = Vec::new();
    let mut token_slot: Vec<u8> = Vec::new();
    let input = InitializeMintInput::new(key(9), 10_000, b"TKN".to_vec(), 6);
    assert_eq!(process_initialize_mint(&mut token_slot, &program, &program, input), Ok(()));
    assert_eq!(
        process_mint_tokens(&mut token_slot, &key(1), &MintTokenParams { amount: 100 }),
        Ok(())
    );
    let create = PredictionEventParams { unique_id: id(1), expiry_timestamp: 99, num_outcomes: 2 };
    assert_eq!(process_create_event(&mut event_slot, &key(9), true, &create), Ok(()));
    let bet = BetOnPredictionEventParams {
        unique_id: id(1),
        outcome_id: 0,
        amount: 40,
        side: BetType::BUY,
    };
    assert_eq!(process_place_bet(&mut event_slot, &mut token_slot, &bet, &key(1), 11), Ok(()));
    let t = load_mint(&token_slot).unwrap();
    assert_eq!(balance_of(&t, &key(1)), 60);
    let p = load_predictions(&event_slot).unwrap();
    assert_eq!(p.predictions[0].total_pool_amount, 40);
    // resolve and claim the whole pool back
    let mut event_slot2 = event_slot.clone();
    assert_eq!(
        prediction_market::handlers::process_resolve_event(&mut event_slot2, &id(1), 0, &key(9)),
        Ok(())
    );
    let r = process_claim_winnings(&mut event_slot2, &mut token_slot, &id(1), &key(1));
    assert_eq!(r, Ok(40));
    let t = load_mint(&token_slot).unwrap();
    assert_eq!(balance_of(&t, &key(1)), 100);
    // a repeat claim pays nothing more
    let r = process_claim_winnings(&mut event_slot2, &mut token_slot, &id(1), &key(1));
    assert_eq!(r, Ok(0));
    // burning over the balance fails through the handler as well
    assert_eq!(
        process_burn_tokens(&mut token_slot, &key(1), &MintTokenParams { amount: 101 }),
        Err(PredictionMarketError::InsufficientFunds)
    );
    assert_eq!(
        process_burn_tokens(&mut token_slot, &key(1), &MintTokenParams { amount: 100 }),
        Ok(())
    );
    // closing through the handler
    let close = ClosePredictionEventParams { unique_id: id(1) };
    assert_eq!(process_close_event(&mut event_slot, &close, &key(9)), Ok(()));
    let p = load_predictions(&event_slot).unwrap();
    assert_eq!(p.predictions[0].status, EventStatus::Closed);
}

#[test]
fn cancelled_status_round_trips_through_codec() {
    // no handler reaches `Cancelled`, but the record layout carries it
    let mut p = empty_predictions();
    assert_eq!(create_event(&mut p, &key(1), true, &id(1), 5, 1), Ok(()));
    p.predictions[0].status = EventStatus::Cancelled;
    let bytes = encode_predictions(&p).unwrap();
    let q = decode_predictions(&bytes).unwrap();
    assert_eq!(q.predictions[0].status, EventStatus::Cancelled);
    assert_eq!(encode_predictions(&q).unwrap(), bytes);
}

#[test]
fn bet_histories_keep_insertion_order() {
    let mut p = empty_predictions();
    let mut t = fresh_mint(10_000);
    assert_eq!(mint_tokens(&mut t, &key(2), 100), Ok(()));
    assert_eq!(mint_tokens(&mut t, &key(1), 100), Ok(()));
    assert_eq!(create_event(&mut p, &key(9), true, &id(1), 5, 1), Ok(()));
    assert_eq!(place_bet(&mut p, &mut t, &id(1), 0, 10, &key(2), BetType::BUY, 1), Ok(()));
    assert_eq!(place_bet(&mut p, &mut t, &id(1), 0, 20, &key(1), BetType::BUY, 2), Ok(()));
    assert_eq!(place_bet(&mut p, &mut t, &id(1), 0, 30, &key(2), BetType::BUY, 3), Ok(()));
    // one row per bettor, in the order the bettors first appeared
    let rows = &p.predictions[0].outcomes[0].bets;
    assert_eq!(rows.len(), 2);
    assert_eq!(rows[0].user, key(2));
    assert_eq!(rows[1].user, key(1));
    // and within a row, bets in placement order
    assert_eq!(rows[0].bets.len(), 2);
    assert_eq!(rows[0].bets[0].amount, 10);
    assert_eq!(rows[0].bets[1].amount, 30);
    // the encoding preserves that order deterministically
    let bytes = encode_predictions(&p).unwrap();
    let q = decode_predictions(&bytes).unwrap();
    assert_eq!(q.predictions[0].outcomes[0].bets[0].user, key(2));
    assert_eq!(q.predictions[0].outcomes[0].bets[1].user, key(1));
}

#[test]
fn instruction_decoding() {
    // opcode 5 is mint-tokens; its parameter record is one little-endian u64
    let mut bytes = vec![5u8];
    bytes.extend_from_slice(&42u64.to_le_bytes());
    match parse_instruction(&bytes).unwrap() {
        PredictionMarketInstruction::MintTokens(p) => assert_eq!(p.amount, 42),
        _ => panic!("wrong instruction"),
    }
    // opcode 1 is create-event: a 32-byte id, a u64 expiry, a u8 outcome count
    let mut bytes = vec![1u8];
    bytes.extend_from_slice(&id(3));
    bytes.extend_from_slice(&7u64.to_le_bytes());
    bytes.push(4);
    match parse_instruction(&bytes).unwrap() {
        PredictionMarketInstruction::CreateEvent(p) => {
            assert_eq!(p.unique_id, id(3));
            assert_eq!(p.expiry_timestamp, 7);
            assert_eq!(p.num_outcomes, 4);
        },
        _ => panic!("wrong instruction"),
    }
    // opcode 3 is place-bet, ending in a side tag; 0 is SELL, 1 is BUY
    let mut bytes = vec![3u8];
    bytes.extend_from_slice(&id(3));
    bytes.push(1);
    bytes.extend_from_slice(&9u64.to_le_bytes());
    bytes.push(1);
    match parse_instruction(&bytes).unwrap() {
        PredictionMarketInstruction::PlaceBet(p) => {
            assert_eq!(p.unique_id, id(3));
            assert_eq!(p.outcome_id, 1);
            assert_eq!(p.amount, 9);
            assert_eq!(p.side, BetType::BUY);
        },
        _ => panic!("wrong instruction"),
    }
    // an unknown opcode, an empty buffer and trailing bytes are all refused
    assert_eq!(
        parse_instruction(&vec![9u8, 0]).err(),
        Some(PredictionMarketError::DecodeError)
    );
    assert_eq!(
        parse_instruction(&Vec::new()).err(),
        Some(PredictionMarketError::DecodeError)
    );
    let mut bytes = vec![5u8];
    bytes.extend_from_slice(&42u64.to_le_bytes());
    bytes.push(0);
    assert_eq!(
        parse_instruction(&bytes).err(),
        Some(PredictionMarketError::DecodeError)
    );
}

#[test]
fn instruction_codec_round_trips() {
    let insts = vec![
        PredictionMarketInstruction::CreateEvent(PredictionEventParams {
            unique_id: id(1),
            expiry_timestamp: 77,
            num_outcomes: 3,
        }),
        PredictionMarketInstruction::CloseEvent(ClosePredictionEventParams { unique_id: id(2) }),
        PredictionMarketInstruction::PlaceBet(BetOnPredictionEventParams {
            unique_id: id(3),
            outcome_id: 1,
            amount: 55,
            side: BetType::SELL,
        }),
        PredictionMarketInstruction::InitializeMint(InitializeMintInput::new(
            key(9),
            1000,
            b"TKN".to_vec(),
            6,
        )),
        PredictionMarketInstruction::MintTokens(MintTokenParams { amount: 7 }),
        PredictionMarketInstruction::BurnTokens(MintTokenParams { amount: 8 }),
    ];
    for inst in &insts {
        let bytes = encode_instruction(inst).unwrap();
        let back = parse_instruction(&bytes).unwrap();
        let again = encode_instruction(&back).unwrap();
        assert_eq!(again, bytes);
    }
    // and the decoded fields come back as encoded
    let bytes = encode_instruction(&PredictionMarketInstruction::PlaceBet(
        BetOnPredictionEventParams {
            unique_id: id(3),
            outcome_id: 1,
            amount: 55,
            side: BetType::SELL,
        },
    ))
    .unwrap();
    match parse_instruction(&bytes).unwrap() {
        PredictionMarketInstruction::PlaceBet(p) => {
            assert_eq!(p.unique_id, id(3));
            assert_eq!(p.outcome_id, 1);
            assert_eq!(p.amount, 55);
            assert_eq!(p.side, BetType::SELL);
        },
        _ => panic!("wrong instruction"),
    }
}

#[test]
fn create_event_handler_rejects_duplicates_atomically() {
    let mut slot: Vec<u8> = Vec::new();
    let params = PredictionEventParams { unique_id: id(1), expiry_timestamp: 5, num_outcomes: 2 };
    assert_eq!(process_create_event(&mut slot, &key(1), true, &params), Ok(()));
    let before = slot.clone();
    assert_eq!(
        process_create_event(&mut slot, &key(2), true, &params),
        Err(PredictionMarketError::DuplicateEvent)
    );
    assert_eq!(slot, before);
    assert_eq!(
        process_create_event(&mut slot, &key(2), false, &params),
        Err(PredictionMarketError::Unauthorized)
    );
    assert_eq!(slot, before);
}
