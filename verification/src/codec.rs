//! Primitive layer of the persistence codec: little-endian integers, fixed
//! 32-byte blocks, booleans, and counted sequences.  Every record codec is
//! built from these.  Encoding is a total spec function over views; parsing
//! is a spec function from a byte sequence and a position to a value and the
//! next position, `None` on malformed input.

use vstd::bytes::{
    spec_u32_from_le_bytes, spec_u32_to_le_bytes, spec_u64_from_le_bytes, spec_u64_to_le_bytes,
    u32_from_le_bytes, u32_to_le_bytes, u64_from_le_bytes, u64_to_le_bytes,
};
use vstd::prelude::*;
use vstd::slice::slice_subrange;

verus! {

// ---------------------------------------------------------------------------
// spec encoders
// ---------------------------------------------------------------------------
pub open spec fn spec_enc_u8(x: u8) -> Seq<u8> {
    seq![x]
}

pub open spec fn spec_enc_u32(x: u32) -> Seq<u8> {
    spec_u32_to_le_bytes(x)
}

pub open spec fn spec_enc_u64(x: u64) -> Seq<u8> {
    spec_u64_to_le_bytes(x)
}

pub open spec fn spec_enc_bool(b: bool) -> Seq<u8> {
    if b {
        seq![1u8]
    } else {
        seq![0u8]
    }
}

/// A counted sequence: each element in order, without a header; the count is
/// encoded separately by the record codecs.
pub open spec fn spec_enc_seq<T>(g: spec_fn(T) -> Seq<u8>, vs: Seq<T>) -> Seq<u8>
    decreases vs.len(),
{
    if vs.len() == 0 {
        Seq::empty()
    } else {
        g(vs.first()) + spec_enc_seq(g, vs.drop_first())
    }
}

// ---------------------------------------------------------------------------
// spec parsers
// ---------------------------------------------------------------------------
pub open spec fn spec_parse_u8(s: Seq<u8>, pos: int) -> Option<(u8, int)> {
    if 0 <= pos && pos + 1 <= s.len() {
        Some((s[pos], pos + 1))
    } else {
        None
    }
}

pub open spec fn spec_parse_u32(s: Seq<u8>, pos: int) -> Option<(u32, int)> {
    if 0 <= pos && pos + 4 <= s.len() {
        Some((spec_u32_from_le_bytes(s.subrange(pos, pos + 4)), pos + 4))
    } else {
        None
    }
}

pub open spec fn spec_parse_u64(s: Seq<u8>, pos: int) -> Option<(u64, int)> {
    if 0 <= pos && pos + 8 <= s.len() {
        Some((spec_u64_from_le_bytes(s.subrange(pos, pos + 8)), pos + 8))
    } else {
        None
    }
}

pub open spec fn spec_parse_bytes32(s: Seq<u8>, pos: int) -> Option<(Seq<u8>, int)> {
    if 0 <= pos && pos + 32 <= s.len() {
        Some((s.subrange(pos, pos + 32), pos + 32))
    } else {
        None
    }
}

/// Strict: only the bytes 0 and 1 decode, so encodings stay canonical.
pub open spec fn spec_parse_bool(s: Seq<u8>, pos: int) -> Option<(bool, int)> {
    match spec_parse_u8(s, pos) {
        None => None,
        Some((x, p)) => if x == 0 {
            Some((false, p))
        } else if x == 1 {
            Some((true, p))
        } else {
            None
        },
    }
}

pub open spec fn spec_parse_seq<T>(
    f: spec_fn(Seq<u8>, int) -> Option<(T, int)>,
    s: Seq<u8>,
    pos: int,
    n: int,
) -> Option<(Seq<T>, int)>
    decreases n,
{
    if n <= 0 {
        Some((Seq::empty(), pos))
    } else {
        match f(s, pos) {
            None => None,
            Some((v, p2)) => match spec_parse_seq(f, s, p2, n - 1) {
                None => None,
                Some((vs, p3)) => Some((seq![v] + vs, p3)),
            },
        }
    }
}

// ---------------------------------------------------------------------------
// round-trip lemmas: a parse at a position holding an encoding yields the
// encoded value and stops right after it
// ---------------------------------------------------------------------------
/// Splitting a subrange that holds a concatenation.
pub proof fn lemma_subrange_split(s: Seq<u8>, pos: int, a: Seq<u8>, b: Seq<u8>)
    requires
        0 <= pos,
        pos + a.len() + b.len() <= s.len(),
        s.subrange(pos, pos + a.len() + b.len()) == a + b,
    ensures
        s.subrange(pos, pos + a.len() as int) == a,
        s.subrange(pos + a.len() as int, pos + a.len() + b.len()) == b,
{
    let whole = s.subrange(pos, pos + a.len() + b.len());
    assert(s.subrange(pos, pos + a.len() as int) =~= a) by {
        assert(forall|i: int|
            0 <= i < a.len() ==> #[trigger] s.subrange(pos, pos + a.len() as int)[i] == whole[i]);
        assert(forall|i: int| 0 <= i < a.len() ==> #[trigger] (a + b)[i] == a[i]);
    }
    assert(s.subrange(pos + a.len() as int, pos + a.len() + b.len()) =~= b) by {
        assert(forall|i: int|
            0 <= i < b.len() ==> #[trigger] s.subrange(
                pos + a.len() as int,
                pos + a.len() + b.len(),
            )[i] == whole[a.len() + i]);
        assert(forall|i: int| 0 <= i < b.len() ==> #[trigger] (a + b)[a.len() + i] == b[i]);
    }
}

pub proof fn lemma_parse_enc_u8(s: Seq<u8>, pos: int, x: u8)
    requires
        0 <= pos,
        pos + 1 <= s.len(),
        s.subrange(pos, pos + 1) == spec_enc_u8(x),
    ensures
        spec_parse_u8(s, pos) == Some((x, pos + 1)),
{
    assert(s.subrange(pos, pos + 1)[0] == s[pos]);
}

pub proof fn lemma_parse_enc_u32(s: Seq<u8>, pos: int, x: u32)
    requires
        0 <= pos,
        pos + 4 <= s.len(),
        s.subrange(pos, pos + 4) == spec_enc_u32(x),
    ensures
        spec_parse_u32(s, pos) == Some((x, pos + 4)),
{
    vstd::bytes::lemma_auto_spec_u32_to_from_le_bytes();
    assert(s.subrange(pos, pos + 4) == spec_u32_to_le_bytes(x));
    assert(spec_u32_from_le_bytes(spec_u32_to_le_bytes(x)) == x);
}

pub proof fn lemma_parse_enc_u64(s: Seq<u8>, pos: int, x: u64)
    requires
        0 <= pos,
        pos + 8 <= s.len(),
        s.subrange(pos, pos + 8) == spec_enc_u64(x),
    ensures
        spec_parse_u64(s, pos) == Some((x, pos + 8)),
{
    vstd::bytes::lemma_auto_spec_u64_to_from_le_bytes();
    assert(s.subrange(pos, pos + 8) == spec_u64_to_le_bytes(x));
    assert(spec_u64_from_le_bytes(spec_u64_to_le_bytes(x)) == x);
}

pub proof fn lemma_parse_enc_bool(s: Seq<u8>, pos: int, b: bool)
    requires
        0 <= pos,
        pos + 1 <= s.len(),
        s.subrange(pos, pos + 1) == spec_enc_bool(b),
    ensures
        spec_parse_bool(s, pos) == Some((b, pos + 1)),
{
    assert(s.subrange(pos, pos + 1)[0] == s[pos]);
}

/// The generic round trip for counted sequences: if every element of `vs`
/// parses back from its own encoding (under `f` and `g`), then the counted
/// sequence parses back from the concatenation.
pub proof fn lemma_parse_enc_seq<T>(
    f: spec_fn(Seq<u8>, int) -> Option<(T, int)>,
    g: spec_fn(T) -> Seq<u8>,
    vs: Seq<T>,
    s: Seq<u8>,
    pos: int,
)
    requires
        0 <= pos,
        pos + spec_enc_seq(g, vs).len() <= s.len(),
        s.subrange(pos, pos + spec_enc_seq(g, vs).len() as int) == spec_enc_seq(g, vs),
        forall|i: int, p2: int|
            0 <= i < vs.len() && 0 <= p2 && p2 + g(#[trigger] vs[i]).len() <= s.len()
                && s.subrange(p2, p2 + g(vs[i]).len() as int) == g(vs[i]) ==> #[trigger] f(s, p2)
                == Some((vs[i], p2 + g(vs[i]).len() as int)),
    ensures
        spec_parse_seq(f, s, pos, vs.len() as int) == Some(
            (vs, pos + spec_enc_seq(g, vs).len() as int),
        ),
    decreases vs.len(),
{
    if vs.len() == 0 {
    } else {
        let e0 = g(vs.first());
        let rest = spec_enc_seq(g, vs.drop_first());
        assert(spec_enc_seq(g, vs) == e0 + rest);
        lemma_subrange_split(s, pos, e0, rest);
        assert(vs[0] == vs.first());
        assert(f(s, pos) == Some((vs.first(), pos + e0.len() as int)));
        assert(forall|i: int|
            0 <= i < vs.drop_first().len() ==> (#[trigger] vs.drop_first()[i]) == vs[i + 1]);
        lemma_parse_enc_seq(f, g, vs.drop_first(), s, pos + e0.len() as int);
        assert(seq![vs.first()] + vs.drop_first() =~= vs);
    }
}

// ---------------------------------------------------------------------------
// executable readers and writers
// ---------------------------------------------------------------------------
pub fn read_u8(bytes: &Vec<u8>, pos: usize) -> (r: Option<(u8, usize)>)
    requires
        pos <= bytes@.len(),
    ensures
        match r {
            Some((x, p)) => {
                &&& spec_parse_u8(bytes@, pos as int) == Some((x, p as int))
                &&& p <= bytes@.len()
            },
            None => spec_parse_u8(bytes@, pos as int) is None,
        },
{
    if pos < bytes.len() {
        Some((bytes[pos], pos + 1))
    } else {
        None
    }
}

pub fn read_u32(bytes: &Vec<u8>, pos: usize) -> (r: Option<(u32, usize)>)
    requires
        pos <= bytes@.len(),
    ensures
        match r {
            Some((x, p)) => {
                &&& spec_parse_u32(bytes@, pos as int) == Some((x, p as int))
                &&& p <= bytes@.len()
            },
            None => spec_parse_u32(bytes@, pos as int) is None,
        },
{
    if bytes.len() - pos >= 4 {
        let sl = slice_subrange(bytes.as_slice(), pos, pos + 4);
        Some((u32_from_le_bytes(sl), pos + 4))
    } else {
        None
    }
}

pub fn read_u64(bytes: &Vec<u8>, pos: usize) -> (r: Option<(u64, usize)>)
    requires
        pos <= bytes@.len(),
    ensures
        match r {
            Some((x, p)) => {
                &&& spec_parse_u64(bytes@, pos as int) == Some((x, p as int))
                &&& p <= bytes@.len()
            },
            None => spec_parse_u64(bytes@, pos as int) is None,
        },
{
    if bytes.len() - pos >= 8 {
        let sl = slice_subrange(bytes.as_slice(), pos, pos + 8);
        Some((u64_from_le_bytes(sl), pos + 8))
    } else {
        None
    }
}

pub fn read_bytes32(bytes: &Vec<u8>, pos: usize) -> (r: Option<([u8; 32], usize)>)
    requires
        pos <= bytes@.len(),
    ensures
        match r {
            Some((a, p)) => {
                &&& spec_parse_bytes32(bytes@, pos as int) == Some((a@, p as int))
                &&& p <= bytes@.len()
            },
            None => spec_parse_bytes32(bytes@, pos as int) is None,
        },
{
    if bytes.len() - pos >= 32 {
        let n = bytes.len();
        let mut a = [0u8; 32];
        let mut i: usize = 0;
        while i < 32
            invariant
                0 <= i <= 32,
                n == bytes@.len(),
                pos + 32 <= n,
                forall|k: int| 0 <= k < i ==> a@[k] == bytes@[pos + k],
            decreases 32 - i,
        {
            a[i] = bytes[pos + i];
            i += 1;
        }
        proof {
            assert(a@ =~= bytes@.subrange(pos as int, pos + 32));
        }
        Some((a, pos + 32))
    } else {
        None
    }
}

pub fn read_bool(bytes: &Vec<u8>, pos: usize) -> (r: Option<(bool, usize)>)
    requires
        pos <= bytes@.len(),
    ensures
        match r {
            Some((b, p)) => {
                &&& spec_parse_bool(bytes@, pos as int) == Some((b, p as int))
                &&& p <= bytes@.len()
            },
            None => spec_parse_bool(bytes@, pos as int) is None,
        },
{
    match read_u8(bytes, pos) {
        None => None,
        Some((x, p)) => {
            if x == 0 {
                Some((false, p))
            } else if x == 1 {
                Some((true, p))
            } else {
                None
            }
        },
    }
}

pub fn write_u8(out: &mut Vec<u8>, x: u8)
    ensures
        final(out)@ == old(out)@ + spec_enc_u8(x),
{
    out.push(x);
    proof {
        assert(out@ =~= old(out)@ + spec_enc_u8(x));
    }
}

pub fn write_u32(out: &mut Vec<u8>, x: u32)
    ensures
        final(out)@ == old(out)@ + spec_enc_u32(x),
{
    let mut b = u32_to_le_bytes(x);
    out.append(&mut b);
}

pub fn write_u64(out: &mut Vec<u8>, x: u64)
    ensures
        final(out)@ == old(out)@ + spec_enc_u64(x),
{
    let mut b = u64_to_le_bytes(x);
    out.append(&mut b);
}

pub fn write_bytes32(out: &mut Vec<u8>, a: &[u8; 32])
    ensures
        final(out)@ == old(out)@ + a@,
{
    let mut i: usize = 0;
    while i < 32
        invariant
            0 <= i <= 32,
            out@ == old(out)@ + a@.take(i as int),
        decreases 32 - i,
    {
        proof {
            assert(old(out)@ + a@.take(i + 1) =~= (old(out)@ + a@.take(i as int)).push(a@[i as int]));
        }
        out.push(a[i]);
        i += 1;
    }
    proof {
        assert(a@.take(32) =~= a@);
    }
}

pub fn write_bool(out: &mut Vec<u8>, b: bool)
    ensures
        final(out)@ == old(out)@ + spec_enc_bool(b),
{
    if b {
        write_u8(out, 1);
    } else {
        write_u8(out, 0);
    }
}

// ---------------------------------------------------------------------------
// record codecs
// ---------------------------------------------------------------------------
/// A record with a deterministic binary encoding.  `enc` and `parse` are the
/// mathematical codec over the record's view; `read` and `write` are the
/// executable codec, proven to agree with them; `lemma_parse_enc` is the
/// round trip: a parse at an encoding yields the encoded value.
pub trait Codec: View + Sized {
    /// The views whose encoding is well formed (identifier lengths right,
    /// sequence counts within the `u32` length header).
    spec fn enc_wf(v: Self::V) -> bool;

    spec fn enc(v: Self::V) -> Seq<u8>;

    spec fn parse(s: Seq<u8>, pos: int) -> Option<(Self::V, int)>;

    proof fn lemma_parse_enc(v: Self::V, s: Seq<u8>, pos: int)
        requires
            Self::enc_wf(v),
            0 <= pos,
            pos + Self::enc(v).len() <= s.len(),
            s.subrange(pos, pos + Self::enc(v).len() as int) == Self::enc(v),
        ensures
            Self::parse(s, pos) == Some((v, pos + Self::enc(v).len() as int)),
    ;

    fn read(bytes: &Vec<u8>, pos: usize) -> (r: Option<(Self, usize)>)
        requires
            pos <= bytes@.len(),
        ensures
            match r {
                Some((x, p)) => {
                    &&& Self::parse(bytes@, pos as int) == Some((x@, p as int))
                    &&& p <= bytes@.len()
                },
                None => Self::parse(bytes@, pos as int) is None,
            },
    ;

    fn write(&self, out: &mut Vec<u8>)
        requires
            Self::enc_wf(self@),
        ensures
            final(out)@ == old(out)@ + Self::enc(self@),
    ;
}

pub open spec fn parser_of<T: Codec>() -> spec_fn(Seq<u8>, int) -> Option<(T::V, int)> {
    |s: Seq<u8>, p: int| T::parse(s, p)
}

pub open spec fn encoder_of<T: Codec>() -> spec_fn(T::V) -> Seq<u8> {
    |v: T::V| T::enc(v)
}

/// The views of a sequence of records.
pub open spec fn view_seq<T: View>(v: Seq<T>) -> Seq<T::V> {
    v.map_values(|t: T| t@)
}

/// A counted vector: a `u32` length header, then the elements in order.
pub open spec fn spec_enc_vec<T: Codec>(vs: Seq<T::V>) -> Seq<u8> {
    spec_enc_u32(vs.len() as u32) + spec_enc_seq(encoder_of::<T>(), vs)
}

pub open spec fn spec_parse_vec<T: Codec>(s: Seq<u8>, pos: int) -> Option<(Seq<T::V>, int)> {
    match spec_parse_u32(s, pos) {
        None => None,
        Some((n, p)) => spec_parse_seq(parser_of::<T>(), s, p, n as int),
    }
}

pub proof fn lemma_parse_enc_vec<T: Codec>(vs: Seq<T::V>, s: Seq<u8>, pos: int)
    requires
        vs.len() <= u32::MAX,
        forall|i: int| 0 <= i < vs.len() ==> T::enc_wf(#[trigger] vs[i]),
        0 <= pos,
        pos + spec_enc_vec::<T>(vs).len() <= s.len(),
        s.subrange(pos, pos + spec_enc_vec::<T>(vs).len() as int) == spec_enc_vec::<T>(vs),
    ensures
        spec_parse_vec::<T>(s, pos) == Some((vs, pos + spec_enc_vec::<T>(vs).len() as int)),
{
    let hdr = spec_enc_u32(vs.len() as u32);
    let body = spec_enc_seq(encoder_of::<T>(), vs);
    assert(hdr.len() == 4) by {
        vstd::bytes::lemma_auto_spec_u32_to_from_le_bytes();
    }
    lemma_subrange_split(s, pos, hdr, body);
    lemma_parse_enc_u32(s, pos, vs.len() as u32);
    let p1 = pos + 4;
    let f = parser_of::<T>();
    let g = encoder_of::<T>();
    assert forall|i: int, p2: int|
        0 <= i < vs.len() && 0 <= p2 && p2 + g(#[trigger] vs[i]).len() <= s.len() && s.subrange(
            p2,
            p2 + g(vs[i]).len() as int,
        ) == g(vs[i]) implies #[trigger] f(s, p2) == Some((vs[i], p2 + g(vs[i]).len() as int)) by {
        T::lemma_parse_enc(vs[i], s, p2);
    }
    lemma_parse_enc_seq(f, g, vs, s, p1);
    assert((vs.len() as u32) as int == vs.len() as int);
}

/// A parsed counted body has exactly the counted number of elements, each a
/// value its element parser produced.
pub proof fn lemma_parse_seq_shape<T>(
    f: spec_fn(Seq<u8>, int) -> Option<(T, int)>,
    s: Seq<u8>,
    pos: int,
    n: int,
    wf: spec_fn(T) -> bool,
)
    requires
        n >= 0,
        forall|p2: int| (#[trigger] f(s, p2)) matches Some(pr) ==> wf(pr.0),
    ensures
        spec_parse_seq(f, s, pos, n) matches Some(pr) ==> (pr.0.len() == n && forall|i: int|
            0 <= i < n ==> wf(#[trigger] pr.0[i])),
    decreases n,
{
    if n > 0 {
        match f(s, pos) {
            None => {},
            Some((v, p2)) => {
                lemma_parse_seq_shape(f, s, p2, n - 1, wf);
                match spec_parse_seq(f, s, p2, n - 1) {
                    None => {},
                    Some((vs, _p3)) => {
                        assert(wf(v));
                        assert forall|i: int| 0 <= i < n implies wf(#[trigger] (seq![v] + vs)[i]) by {
                            if i == 0 {
                                assert((seq![v] + vs)[0] == v);
                            } else {
                                assert((seq![v] + vs)[i] == vs[i - 1]);
                            }
                        }
                    },
                }
            },
        }
    }
}

/// A parsed counted vector holds at most `u32::MAX` elements — its count was
/// read from a `u32` header — each one a value its element parser produced.
pub proof fn lemma_parse_vec_shape<T: Codec>(s: Seq<u8>, pos: int)
    requires
        forall|p2: int| (#[trigger] T::parse(s, p2)) matches Some(pr) ==> T::enc_wf(pr.0),
    ensures
        spec_parse_vec::<T>(s, pos) matches Some(pr) ==> (pr.0.len() <= u32::MAX && forall|i: int|
            0 <= i < pr.0.len() ==> T::enc_wf(#[trigger] pr.0[i])),
{
    match spec_parse_u32(s, pos) {
        None => {},
        Some((n, p1)) => {
            let f = parser_of::<T>();
            let wf = |v: T::V| T::enc_wf(v);
            assert forall|p2: int|
                #![trigger f(s, p2)]
                (f(s, p2) matches Some(pr) ==> wf(pr.0)) by {
                assert(f(s, p2) == T::parse(s, p2));
            }
            lemma_parse_seq_shape(f, s, p1, n as int, wf);
            match spec_parse_seq(f, s, p1, n as int) {
                None => {},
                Some((vs, _)) => {
                    assert(forall|i: int| 0 <= i < vs.len() ==> wf(#[trigger] vs[i]));
                    assert forall|i: int| 0 <= i < vs.len() implies T::enc_wf(#[trigger] vs[i]) by {
                        assert(wf(vs[i]));
                    }
                },
            }
        },
    }
}

pub fn read_vec<T: Codec>(bytes: &Vec<u8>, pos: usize) -> (r: Option<(Vec<T>, usize)>)
    requires
        pos <= bytes@.len(),
    ensures
        match r {
            Some((v, p)) => {
                &&& spec_parse_vec::<T>(bytes@, pos as int) == Some((view_seq(v@), p as int))
                &&& p <= bytes@.len()
            },
            None => spec_parse_vec::<T>(bytes@, pos as int) is None,
        },
{
    let ghost s = bytes@;
    let ghost f = parser_of::<T>();
    let (n, p_start) = match read_u32(bytes, pos) {
        None => {
            return None;
        },
        Some(h) => h,
    };
    let mut out: Vec<T> = Vec::new();
    let mut pcur: usize = p_start;
    let mut i: u32 = 0;
    proof {
        assert(view_seq(out@) =~= Seq::<T::V>::empty());
        let whole = spec_parse_seq(f, s, p_start as int, n as int);
        if whole is Some {
            let pair = whole->0;
            assert(view_seq(out@) + pair.0 =~= pair.0);
        }
    }
    while i < n
        invariant
            0 <= i <= n,
            pcur <= s.len(),
            s == bytes@,
            f == parser_of::<T>(),
            spec_parse_u32(s, pos as int) == Some((n, p_start as int)),
            out@.len() == i as int,
            spec_parse_seq(f, s, p_start as int, n as int) == (match spec_parse_seq(
                f,
                s,
                pcur as int,
                n as int - i as int,
            ) {
                Some((vs, p)) => Some((view_seq(out@) + vs, p)),
                None => None::<(Seq<T::V>, int)>,
            }),
        decreases n - i,
    {
        match T::read(bytes, pcur) {
            None => {
                proof {
                    assert(f(s, pcur as int) == T::parse(s, pcur as int));
                    assert(spec_parse_seq(f, s, pcur as int, n as int - i as int) is None);
                    assert(spec_parse_seq(f, s, p_start as int, n as int) is None);
                    assert(spec_parse_vec::<T>(bytes@, pos as int) == spec_parse_seq(
                        parser_of::<T>(),
                        bytes@,
                        p_start as int,
                        n as int,
                    ));
                }
                return None;
            },
            Some((x, p2)) => {
                proof {
                    let tail = spec_parse_seq(f, s, p2 as int, n as int - i as int - 1);
                    if tail is Some {
                        let pair = tail->0;
                        let vs = pair.0;
                        assert(view_seq(out@.push(x)) =~= view_seq(out@).push(x@));
                        assert(view_seq(out@) + (seq![x@] + vs) =~= view_seq(out@).push(x@) + vs);
                    }
                }
                out.push(x);
                pcur = p2;
                i += 1;
            },
        }
    }
    proof {
        assert(spec_parse_seq(f, s, pcur as int, 0) == Some((Seq::<T::V>::empty(), pcur as int)));
        assert(view_seq(out@) + Seq::<T::V>::empty() =~= view_seq(out@));
    }
    Some((out, pcur))
}

pub fn write_vec<T: Codec>(v: &Vec<T>, out: &mut Vec<u8>)
    requires
        v@.len() <= u32::MAX,
        forall|i: int| 0 <= i < v@.len() ==> T::enc_wf((#[trigger] v@[i])@),
    ensures
        final(out)@ == old(out)@ + spec_enc_vec::<T>(view_seq(v@)),
{
    let ghost g = encoder_of::<T>();
    let n = v.len();
    write_u32(out, n as u32);
    let ghost base = out@;
    let mut i: usize = 0;
    proof {
        assert(view_seq(v@).len() == v@.len());
    }
    while i < n
        invariant
            0 <= i <= n,
            n == v@.len(),
            n <= u32::MAX,
            g == encoder_of::<T>(),
            forall|k: int| 0 <= k < v@.len() ==> T::enc_wf((#[trigger] v@[k])@),
            base == old(out)@ + spec_enc_u32(n as u32),
            out@ == base + spec_enc_seq(g, view_seq(v@).take(i as int)),
        decreases n - i,
    {
        proof {
            assert(view_seq(v@).take(i as int).push(v@[i as int]@) =~= view_seq(v@).take(i + 1));
            lemma_enc_seq_snoc(g, view_seq(v@).take(i as int), v@[i as int]@);
        }
        v[i].write(out);
        i += 1;
    }
    proof {
        assert(view_seq(v@).take(n as int) =~= view_seq(v@));
        assert((base + spec_enc_seq(g, view_seq(v@))) =~= old(out)@ + spec_enc_vec::<T>(
            view_seq(v@),
        ));
    }
}

/// Plain bytes are records of their own: this is what encodes a byte string
/// such as a ticker, as a counted vector of single bytes.
impl Codec for u8 {
    open spec fn enc_wf(v: u8) -> bool {
        true
    }

    open spec fn enc(v: u8) -> Seq<u8> {
        spec_enc_u8(v)
    }

    open spec fn parse(s: Seq<u8>, pos: int) -> Option<(u8, int)> {
        spec_parse_u8(s, pos)
    }

    proof fn lemma_parse_enc(v: u8, s: Seq<u8>, pos: int) {
        lemma_parse_enc_u8(s, pos, v);
    }

    fn read(bytes: &Vec<u8>, pos: usize) -> (r: Option<(u8, usize)>) {
        read_u8(bytes, pos)
    }

    fn write(&self, out: &mut Vec<u8>) {
        write_u8(out, *self);
    }
}

/// Appending one element to a counted body appends its encoding.
pub proof fn lemma_enc_seq_snoc<T>(g: spec_fn(T) -> Seq<u8>, vs: Seq<T>, v: T)
    ensures
        spec_enc_seq(g, vs.push(v)) == spec_enc_seq(g, vs) + g(v),
    decreases vs.len(),
{
    if vs.len() == 0 {
        assert(vs.push(v).drop_first() =~= Seq::<T>::empty());
        assert(vs.push(v).first() == v);
        assert(spec_enc_seq(g, Seq::<T>::empty()) == Seq::<u8>::empty());
        assert(spec_enc_seq(g, vs.push(v)) =~= g(v) + Seq::<u8>::empty());
        assert(g(v) + Seq::<u8>::empty() =~= g(v));
        assert(spec_enc_seq(g, vs) + g(v) =~= g(v));
    } else {
        assert(vs.push(v).first() == vs.first());
        assert(vs.push(v).drop_first() =~= vs.drop_first().push(v));
        lemma_enc_seq_snoc(g, vs.drop_first(), v);
        assert((g(vs.first()) + (spec_enc_seq(g, vs.drop_first()) + g(v))) =~= (g(vs.first())
            + spec_enc_seq(g, vs.drop_first())) + g(v));
    }
}

} // verus!
