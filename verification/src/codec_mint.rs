//! Codec of the token-ledger record: the mint details with their metadata
//! and balance tables.

use vstd::prelude::*;
use crate::codec::{
    lemma_parse_enc_u8, lemma_parse_enc_u64, lemma_parse_enc_vec, lemma_subrange_split, read_bytes32,
    read_u8, read_u64, read_vec, spec_enc_u8, spec_enc_u64, spec_enc_vec, spec_parse_bytes32,
    spec_parse_u8, spec_parse_u64, spec_parse_vec, view_seq, write_bytes32, write_u8, write_u64,
    write_vec, Codec,
};
use crate::mint::{BalanceEntry, MetadataEntry, MintStatus, TokenMintDetails};

verus! {

// ---------------------------------------------------------------------------
// tag codec
// ---------------------------------------------------------------------------
pub open spec fn mint_status_tag(st: MintStatus) -> u8 {
    match st {
        MintStatus::Ongoing => 0,
        MintStatus::Finished => 1,
    }
}

pub open spec fn spec_enc_mint_status(st: MintStatus) -> Seq<u8> {
    seq![mint_status_tag(st)]
}

pub open spec fn spec_parse_mint_status(s: Seq<u8>, pos: int) -> Option<(MintStatus, int)> {
    match spec_parse_u8(s, pos) {
        None => None,
        Some((x, p)) => if x == 0 {
            Some((MintStatus::Ongoing, p))
        } else if x == 1 {
            Some((MintStatus::Finished, p))
        } else {
            None
        },
    }
}

pub proof fn lemma_parse_enc_mint_status(s: Seq<u8>, pos: int, st: MintStatus)
    requires
        0 <= pos,
        pos + 1 <= s.len(),
        s.subrange(pos, pos + 1) == spec_enc_mint_status(st),
    ensures
        spec_parse_mint_status(s, pos) == Some((st, pos + 1)),
{
    lemma_parse_enc_u8(s, pos, mint_status_tag(st));
}

pub fn read_mint_status(bytes: &Vec<u8>, pos: usize) -> (r: Option<(MintStatus, usize)>)
    requires
        pos <= bytes@.len(),
    ensures
        match r {
            Some((st, p)) => {
                &&& spec_parse_mint_status(bytes@, pos as int) == Some((st, p as int))
                &&& p <= bytes@.len()
            },
            None => spec_parse_mint_status(bytes@, pos as int) is None,
        },
{
    match crate::codec::read_u8(bytes, pos) {
        None => None,
        Some((x, p)) => {
            if x == 0 {
                Some((MintStatus::Ongoing, p))
            } else if x == 1 {
                Some((MintStatus::Finished, p))
            } else {
                None
            }
        },
    }
}

pub fn write_mint_status(out: &mut Vec<u8>, st: MintStatus)
    ensures
        final(out)@ == old(out)@ + spec_enc_mint_status(st),
{
    match st {
        MintStatus::Ongoing => write_u8(out, 0),
        MintStatus::Finished => write_u8(out, 1),
    }
}

// ---------------------------------------------------------------------------
// views
// ---------------------------------------------------------------------------
pub struct BalanceEntryV {
    pub user: Seq<u8>,
    pub amount: u64,
}

impl View for BalanceEntry {
    type V = BalanceEntryV;

    open spec fn view(&self) -> BalanceEntryV {
        BalanceEntryV { user: self.user@, amount: self.amount }
    }
}

pub struct MetadataEntryV {
    pub key: Seq<u8>,
    pub value: Seq<u8>,
}

impl View for MetadataEntry {
    type V = MetadataEntryV;

    open spec fn view(&self) -> MetadataEntryV {
        MetadataEntryV { key: self.key@, value: self.value@ }
    }
}

pub struct TokenMintDetailsV {
    pub owner: Seq<u8>,
    pub status: MintStatus,
    pub supply: u64,
    pub circulating_supply: u64,
    pub ticker: Seq<u8>,
    pub decimals: u8,
    pub token_metadata: Seq<MetadataEntryV>,
    pub balances: Seq<BalanceEntryV>,
}

impl View for TokenMintDetails {
    type V = TokenMintDetailsV;

    open spec fn view(&self) -> TokenMintDetailsV {
        TokenMintDetailsV {
            owner: self.owner@,
            status: self.status,
            supply: self.supply,
            circulating_supply: self.circulating_supply,
            ticker: self.ticker@,
            decimals: self.decimals,
            token_metadata: view_seq(self.token_metadata@),
            balances: view_seq(self.balances@),
        }
    }
}

// ---------------------------------------------------------------------------
// record codecs
// ---------------------------------------------------------------------------
impl Codec for BalanceEntry {
    open spec fn enc_wf(v: BalanceEntryV) -> bool {
        v.user.len() == 32
    }

    open spec fn enc(v: BalanceEntryV) -> Seq<u8> {
        v.user + spec_enc_u64(v.amount)
    }

    open spec fn parse(s: Seq<u8>, pos: int) -> Option<(BalanceEntryV, int)> {
        match spec_parse_bytes32(s, pos) {
            None => None,
            Some((user, p1)) => match spec_parse_u64(s, p1) {
                None => None,
                Some((amount, p2)) => Some((BalanceEntryV { user, amount }, p2)),
            },
        }
    }

    proof fn lemma_parse_enc(v: BalanceEntryV, s: Seq<u8>, pos: int) {
        vstd::bytes::lemma_auto_spec_u64_to_from_le_bytes();
        let e1 = v.user;
        let e2 = spec_enc_u64(v.amount);
        assert(Self::enc(v) =~= e1 + e2);
        lemma_subrange_split(s, pos, e1, e2);
        lemma_parse_enc_u64(s, pos + 32, v.amount);
    }

    fn read(bytes: &Vec<u8>, pos: usize) -> (r: Option<(BalanceEntry, usize)>) {
        let (user, p1) = match read_bytes32(bytes, pos) {
            None => {
                return None;
            },
            Some(x) => x,
        };
        let (amount, p2) = match read_u64(bytes, p1) {
            None => {
                return None;
            },
            Some(x) => x,
        };
        Some((BalanceEntry { user, amount }, p2))
    }

    fn write(&self, out: &mut Vec<u8>) {
        write_bytes32(out, &self.user);
        write_u64(out, self.amount);
        proof {
            assert(out@ =~= old(out)@ + Self::enc(self@));
        }
    }
}

impl Codec for MetadataEntry {
    open spec fn enc_wf(v: MetadataEntryV) -> bool {
        &&& v.key.len() <= u32::MAX
        &&& v.value.len() == 32
    }

    open spec fn enc(v: MetadataEntryV) -> Seq<u8> {
        spec_enc_vec::<u8>(v.key) + v.value
    }

    open spec fn parse(s: Seq<u8>, pos: int) -> Option<(MetadataEntryV, int)> {
        match spec_parse_vec::<u8>(s, pos) {
            None => None,
            Some((key, p1)) => match spec_parse_bytes32(s, p1) {
                None => None,
                Some((value, p2)) => Some((MetadataEntryV { key, value }, p2)),
            },
        }
    }

    proof fn lemma_parse_enc(v: MetadataEntryV, s: Seq<u8>, pos: int) {
        let e1 = spec_enc_vec::<u8>(v.key);
        let e2 = v.value;
        assert(Self::enc(v) =~= e1 + e2);
        lemma_subrange_split(s, pos, e1, e2);
        lemma_parse_enc_vec::<u8>(v.key, s, pos);
    }

    fn read(bytes: &Vec<u8>, pos: usize) -> (r: Option<(MetadataEntry, usize)>) {
        let (key, p1) = match read_vec::<u8>(bytes, pos) {
            None => {
                return None;
            },
            Some(x) => x,
        };
        let (value, p2) = match read_bytes32(bytes, p1) {
            None => {
                return None;
            },
            Some(x) => x,
        };
        proof {
            assert(view_seq(key@) =~= key@);
        }
        Some((MetadataEntry { key, value }, p2))
    }

    fn write(&self, out: &mut Vec<u8>) {
        proof {
            assert(view_seq(self.key@) =~= self.key@);
        }
        write_vec::<u8>(&self.key, out);
        write_bytes32(out, &self.value);
        proof {
            assert(out@ =~= old(out)@ + Self::enc(self@));
        }
    }
}

// ---------------------------------------------------------------------------
// the persisted token record
// ---------------------------------------------------------------------------
/// The views of the token record whose encoding is well formed.
pub open spec fn enc_wf_mint(v: TokenMintDetailsV) -> bool {
    &&& v.owner.len() == 32
    &&& v.ticker.len() <= u32::MAX
    &&& v.token_metadata.len() <= u32::MAX
    &&& forall|i: int|
        0 <= i < v.token_metadata.len() ==> <MetadataEntry as Codec>::enc_wf(
            #[trigger] v.token_metadata[i],
        )
    &&& v.balances.len() <= u32::MAX
    &&& forall|i: int|
        0 <= i < v.balances.len() ==> <BalanceEntry as Codec>::enc_wf(#[trigger] v.balances[i])
}

pub open spec fn spec_enc_mint(v: TokenMintDetailsV) -> Seq<u8> {
    v.owner + spec_enc_mint_status(v.status) + spec_enc_u64(v.supply) + spec_enc_u64(
        v.circulating_supply,
    ) + spec_enc_vec::<u8>(v.ticker) + spec_enc_u8(v.decimals) + spec_enc_vec::<MetadataEntry>(
        v.token_metadata,
    ) + spec_enc_vec::<BalanceEntry>(v.balances)
}

pub open spec fn spec_parse_mint(s: Seq<u8>, pos: int) -> Option<(TokenMintDetailsV, int)> {
    match spec_parse_bytes32(s, pos) {
        None => None,
        Some((owner, p1)) => match spec_parse_mint_status(s, p1) {
            None => None,
            Some((status, p2)) => match spec_parse_u64(s, p2) {
                None => None,
                Some((supply, p3)) => match spec_parse_u64(s, p3) {
                    None => None,
                    Some((circulating_supply, p4)) => match spec_parse_vec::<u8>(s, p4) {
                        None => None,
                        Some((ticker, p5)) => match spec_parse_u8(s, p5) {
                            None => None,
                            Some((decimals, p6)) => match spec_parse_vec::<MetadataEntry>(s, p6) {
                                None => None,
                                Some((token_metadata, p7)) => match spec_parse_vec::<BalanceEntry>(
                                    s,
                                    p7,
                                ) {
                                    None => None,
                                    Some((balances, p8)) => Some(
                                        (
                                            TokenMintDetailsV {
                                                owner,
                                                status,
                                                supply,
                                                circulating_supply,
                                                ticker,
                                                decimals,
                                                token_metadata,
                                                balances,
                                            },
                                            p8,
                                        ),
                                    ),
                                },
                            },
                        },
                    },
                },
            },
        },
    }
}

pub proof fn lemma_parse_enc_mint(v: TokenMintDetailsV, s: Seq<u8>, pos: int)
    requires
        enc_wf_mint(v),
        0 <= pos,
        pos + spec_enc_mint(v).len() <= s.len(),
        s.subrange(pos, pos + spec_enc_mint(v).len() as int) == spec_enc_mint(v),
    ensures
        spec_parse_mint(s, pos) == Some((v, pos + spec_enc_mint(v).len() as int)),
{
    vstd::bytes::lemma_auto_spec_u64_to_from_le_bytes();
    let e1 = v.owner;
    let e2 = spec_enc_mint_status(v.status);
    let e3 = spec_enc_u64(v.supply);
    let e4 = spec_enc_u64(v.circulating_supply);
    let e5 = spec_enc_vec::<u8>(v.ticker);
    let e6 = spec_enc_u8(v.decimals);
    let e7 = spec_enc_vec::<MetadataEntry>(v.token_metadata);
    let e8 = spec_enc_vec::<BalanceEntry>(v.balances);
    assert(spec_enc_mint(v) =~= e1 + (e2 + (e3 + (e4 + (e5 + (e6 + (e7 + e8)))))));
    let p1 = pos + 32;
    let p2 = p1 + 1;
    let p3 = p2 + 8;
    let p4 = p3 + 8;
    let p5 = p4 + e5.len() as int;
    let p6 = p5 + 1;
    let p7 = p6 + e7.len() as int;
    lemma_subrange_split(s, pos, e1, e2 + (e3 + (e4 + (e5 + (e6 + (e7 + e8))))));
    lemma_subrange_split(s, p1, e2, e3 + (e4 + (e5 + (e6 + (e7 + e8)))));
    lemma_subrange_split(s, p2, e3, e4 + (e5 + (e6 + (e7 + e8))));
    lemma_subrange_split(s, p3, e4, e5 + (e6 + (e7 + e8)));
    lemma_subrange_split(s, p4, e5, e6 + (e7 + e8));
    lemma_subrange_split(s, p5, e6, e7 + e8);
    lemma_subrange_split(s, p6, e7, e8);
    lemma_parse_enc_mint_status(s, p1, v.status);
    lemma_parse_enc_u64(s, p2, v.supply);
    lemma_parse_enc_u64(s, p3, v.circulating_supply);
    lemma_parse_enc_vec::<u8>(v.ticker, s, p4);
    lemma_parse_enc_u8(s, p5, v.decimals);
    lemma_parse_enc_vec::<MetadataEntry>(v.token_metadata, s, p6);
    lemma_parse_enc_vec::<BalanceEntry>(v.balances, s, p7);
}

/// Whatever a balance-row parse yields is a well-formed encoding.
pub proof fn lemma_parse_balance_wf(s: Seq<u8>, pos: int)
    ensures
        <BalanceEntry as Codec>::parse(s, pos) matches Some(pr) ==> <BalanceEntry as Codec>::enc_wf(
            pr.0,
        ),
{
}

/// Whatever a metadata-row parse yields is a well-formed encoding: its key
/// count was read from a `u32` header.
pub proof fn lemma_parse_metadata_wf(s: Seq<u8>, pos: int)
    ensures
        <MetadataEntry as Codec>::parse(s, pos) matches Some(pr)
            ==> <MetadataEntry as Codec>::enc_wf(pr.0),
{
    crate::codec::lemma_parse_vec_shape::<u8>(s, pos);
}

/// Whatever a token-record parse yields is a well-formed encoding — so a
/// loaded token record can always be re-encoded, up to the rows an
/// operation adds.
pub proof fn lemma_parse_mint_wf(s: Seq<u8>, pos: int)
    ensures
        spec_parse_mint(s, pos) matches Some(pr) ==> enc_wf_mint(pr.0),
{
    assert forall|p2: int|
        #![trigger <MetadataEntry as Codec>::parse(s, p2)]
        (<MetadataEntry as Codec>::parse(s, p2) matches Some(pr)
            ==> <MetadataEntry as Codec>::enc_wf(pr.0)) by {
        lemma_parse_metadata_wf(s, p2);
    }
    assert forall|p2: int|
        #![trigger <BalanceEntry as Codec>::parse(s, p2)]
        (<BalanceEntry as Codec>::parse(s, p2) matches Some(pr)
            ==> <BalanceEntry as Codec>::enc_wf(pr.0)) by {
        lemma_parse_balance_wf(s, p2);
    }
    if spec_parse_mint(s, pos) is Some {
        let p4 = pos + 32 + 1 + 8 + 8;
        crate::codec::lemma_parse_vec_shape::<u8>(s, p4);
        let ticker = spec_parse_vec::<u8>(s, p4)->0;
        let p6 = ticker.1 + 1;
        crate::codec::lemma_parse_vec_shape::<MetadataEntry>(s, p6);
        let meta = spec_parse_vec::<MetadataEntry>(s, p6)->0;
        let p7 = meta.1;
        crate::codec::lemma_parse_vec_shape::<BalanceEntry>(s, p7);
    }
}

pub fn read_mint(bytes: &Vec<u8>, pos: usize) -> (r: Option<(TokenMintDetails, usize)>)
    requires
        pos <= bytes@.len(),
    ensures
        match r {
            Some((t, pend)) => {
                &&& spec_parse_mint(bytes@, pos as int) == Some((t@, pend as int))
                &&& pend <= bytes@.len()
            },
            None => spec_parse_mint(bytes@, pos as int) is None,
        },
{
    let (owner, p1) = match read_bytes32(bytes, pos) {
        None => {
            return None;
        },
        Some(x) => x,
    };
    let (status, p2) = match read_mint_status(bytes, p1) {
        None => {
            return None;
        },
        Some(x) => x,
    };
    let (supply, p3) = match read_u64(bytes, p2) {
        None => {
            return None;
        },
        Some(x) => x,
    };
    let (circulating_supply, p4) = match read_u64(bytes, p3) {
        None => {
            return None;
        },
        Some(x) => x,
    };
    let (ticker, p5) = match read_vec::<u8>(bytes, p4) {
        None => {
            return None;
        },
        Some(x) => x,
    };
    let (decimals, p6) = match read_u8(bytes, p5) {
        None => {
            return None;
        },
        Some(x) => x,
    };
    let (token_metadata, p7) = match read_vec::<MetadataEntry>(bytes, p6) {
        None => {
            return None;
        },
        Some(x) => x,
    };
    let (balances, p8) = match read_vec::<BalanceEntry>(bytes, p7) {
        None => {
            return None;
        },
        Some(x) => x,
    };
    proof {
        assert(view_seq(ticker@) =~= ticker@);
    }
    Some(
        (
            TokenMintDetails {
                owner,
                status,
                supply,
                circulating_supply,
                ticker,
                decimals,
                token_metadata,
                balances,
            },
            p8,
        ),
    )
}

pub fn write_mint(t: &TokenMintDetails, out: &mut Vec<u8>)
    requires
        enc_wf_mint(t@),
    ensures
        final(out)@ == old(out)@ + spec_enc_mint(t@),
{
    proof {
        assert(view_seq(t.ticker@) =~= t.ticker@);
        assert forall|i: int|
            0 <= i < t.token_metadata@.len() implies <MetadataEntry as Codec>::enc_wf(
            (#[trigger] t.token_metadata@[i])@,
        ) by {
            assert(view_seq(t.token_metadata@)[i] == t.token_metadata@[i]@);
        }
        assert forall|i: int|
            0 <= i < t.balances@.len() implies <BalanceEntry as Codec>::enc_wf(
            (#[trigger] t.balances@[i])@,
        ) by {
            assert(view_seq(t.balances@)[i] == t.balances@[i]@);
        }
    }
    write_bytes32(out, &t.owner);
    write_mint_status(out, t.status);
    write_u64(out, t.supply);
    write_u64(out, t.circulating_supply);
    write_vec::<u8>(&t.ticker, out);
    write_u8(out, t.decimals);
    write_vec::<MetadataEntry>(&t.token_metadata, out);
    write_vec::<BalanceEntry>(&t.balances, out);
    proof {
        assert(out@ =~= old(out)@ + spec_enc_mint(t@));
    }
}

} // verus!
