//! Serialization of captured frames as flat byte records.
//!
//! A frame is encoded as `{instruction_pointer, symbol_address, symbols}`:
//! the two addresses as little-endian 64-bit words, then the resolution
//! state (`None`, distinct from `Some` with zero records). Decoding
//! reconstructs a frame from the two stored addresses and restores the
//! record list as it was: no re-resolution, no re-walking. Every optional
//! value is a tag byte (0 absent, 1 present) followed by the value; byte
//! strings carry a little-endian 64-bit length first.

use vstd::bytes::lemma_auto_spec_u32_to_from_le_bytes;
use vstd::bytes::lemma_auto_spec_u64_to_from_le_bytes;
use vstd::bytes::spec_u32_to_le_bytes;
use vstd::bytes::spec_u32_from_le_bytes;
use vstd::bytes::spec_u64_to_le_bytes;
use vstd::bytes::spec_u64_from_le_bytes;
use vstd::bytes::u32_from_le_bytes;
use vstd::bytes::u32_to_le_bytes;
use vstd::bytes::u64_from_le_bytes;
use vstd::bytes::u64_to_le_bytes;
use vstd::prelude::*;
use vstd::slice::slice_subrange;
use vstd::slice::slice_to_vec;

use crate::frame::BacktraceFrame;
use crate::frame::Frame;
use crate::frame::FrameView;
use crate::symbol::BacktraceSymbol;
use crate::symbol::SymbolView;

verus! {

/// The one hard failure surface: a serialized frame record that does not
/// parse. Decoding never silently produces a corrupt frame.
#[derive(Clone, Copy, Debug, PartialEq, Eq, Structural)]
pub struct DecodeError;

// ---------------------------------------------------------------------------
// The wire format, as spec functions over byte sequences.
// ---------------------------------------------------------------------------

/// Encoding of an optional byte string: a tag byte, then length and bytes.
pub open spec fn enc_opt_bytes(o: Option<Seq<u8>>) -> Seq<u8> {
    match o {
        None => seq![0u8],
        Some(b) => seq![1u8] + spec_u64_to_le_bytes(b.len() as u64) + b,
    }
}

/// Encoding of an optional 64-bit word: a tag byte, then the word.
pub open spec fn enc_opt_u64(o: Option<u64>) -> Seq<u8> {
    match o {
        None => seq![0u8],
        Some(x) => seq![1u8] + spec_u64_to_le_bytes(x),
    }
}

/// Encoding of an optional 32-bit word: a tag byte, then the word.
pub open spec fn enc_opt_u32(o: Option<u32>) -> Seq<u8> {
    match o {
        None => seq![0u8],
        Some(x) => seq![1u8] + spec_u32_to_le_bytes(x),
    }
}

/// Encoding of one symbol record: name, address, file path, line number.
pub open spec fn enc_symbol(s: SymbolView) -> Seq<u8> {
    enc_opt_bytes(s.name) + enc_opt_u64(s.addr) + enc_opt_bytes(s.filename) + enc_opt_u32(s.lineno)
}

/// Encoding of a record list: the records in order, back to back.
pub open spec fn enc_symbols(l: Seq<SymbolView>) -> Seq<u8>
    decreases l.len(),
{
    if l.len() == 0 {
        Seq::empty()
    } else {
        enc_symbol(l[0]) + enc_symbols(l.drop_first())
    }
}

/// Encoding of the resolution state: a tag byte, then count and records.
/// `None` and `Some` with zero records encode differently, so the
/// unresolved state survives a round trip.
pub open spec fn enc_opt_symbols(o: Option<Seq<SymbolView>>) -> Seq<u8> {
    match o {
        None => seq![0u8],
        Some(l) => seq![1u8] + spec_u64_to_le_bytes(l.len() as u64) + enc_symbols(l),
    }
}

/// Encoding of one whole frame record.
pub open spec fn encode_frame_view(f: FrameView) -> Seq<u8> {
    spec_u64_to_le_bytes(f.ip) + spec_u64_to_le_bytes(f.symbol_address) + enc_opt_symbols(f.symbols)
}

/// Whether a symbol's byte strings are short enough for their lengths to be
/// stored as 64-bit words; every symbol held in memory is.
pub open spec fn symbol_view_fits(s: SymbolView) -> bool {
    &&& (s.name matches Some(b) ==> b.len() <= u64::MAX)
    &&& (s.filename matches Some(b) ==> b.len() <= u64::MAX)
}

/// Whether a frame's record list is short enough for its count to be stored
/// as a 64-bit word; every frame held in memory is.
pub open spec fn frame_view_fits(f: FrameView) -> bool {
    f.symbols matches Some(l) ==> l.len() <= u64::MAX && (forall|i: int|
        0 <= i < l.len() ==> symbol_view_fits(#[trigger] l[i]))
}

// ---------------------------------------------------------------------------
// The parser, as spec functions: a cursor over the byte sequence.
// ---------------------------------------------------------------------------

/// Parses one byte at `p`.
pub open spec fn p_u8(b: Seq<u8>, p: int) -> Option<(u8, int)> {
    if 0 <= p && p + 1 <= b.len() {
        Some((b[p], p + 1))
    } else {
        None
    }
}

/// Parses a little-endian 64-bit word at `p`.
pub open spec fn p_u64(b: Seq<u8>, p: int) -> Option<(u64, int)> {
    if 0 <= p && p + 8 <= b.len() {
        Some((spec_u64_from_le_bytes(b.subrange(p, p + 8)), p + 8))
    } else {
        None
    }
}

/// Parses a little-endian 32-bit word at `p`.
pub open spec fn p_u32(b: Seq<u8>, p: int) -> Option<(u32, int)> {
    if 0 <= p && p + 4 <= b.len() {
        Some((spec_u32_from_le_bytes(b.subrange(p, p + 4)), p + 4))
    } else {
        None
    }
}

/// Takes `n` raw bytes at `p`.
pub open spec fn p_bytes(b: Seq<u8>, p: int, n: u64) -> Option<(Seq<u8>, int)> {
    if 0 <= p && p + n <= b.len() {
        Some((b.subrange(p, p + n), p + n))
    } else {
        None
    }
}

/// Parses an optional byte string.
pub open spec fn p_opt_bytes(b: Seq<u8>, p: int) -> Option<(Option<Seq<u8>>, int)> {
    match p_u8(b, p) {
        None => None,
        Some((tag, p1)) => if tag == 0 {
            Some((None, p1))
        } else if tag == 1 {
            match p_u64(b, p1) {
                None => None,
                Some((n, p2)) => match p_bytes(b, p2, n) {
                    None => None,
                    Some((bs, p3)) => Some((Some(bs), p3)),
                },
            }
        } else {
            None
        },
    }
}

/// Parses an optional 64-bit word.
pub open spec fn p_opt_u64(b: Seq<u8>, p: int) -> Option<(Option<u64>, int)> {
    match p_u8(b, p) {
        None => None,
        Some((tag, p1)) => if tag == 0 {
            Some((None, p1))
        } else if tag == 1 {
            match p_u64(b, p1) {
                None => None,
                Some((x, p2)) => Some((Some(x), p2)),
            }
        } else {
            None
        },
    }
}

/// Parses an optional 32-bit word.
pub open spec fn p_opt_u32(b: Seq<u8>, p: int) -> Option<(Option<u32>, int)> {
    match p_u8(b, p) {
        None => None,
        Some((tag, p1)) => if tag == 0 {
            Some((None, p1))
        } else if tag == 1 {
            match p_u32(b, p1) {
                None => None,
                Some((x, p2)) => Some((Some(x), p2)),
            }
        } else {
            None
        },
    }
}

/// Parses one symbol record.
pub open spec fn p_symbol(b: Seq<u8>, p: int) -> Option<(SymbolView, int)> {
    match p_opt_bytes(b, p) {
        None => None,
        Some((name, p1)) => match p_opt_u64(b, p1) {
            None => None,
            Some((addr, p2)) => match p_opt_bytes(b, p2) {
                None => None,
                Some((filename, p3)) => match p_opt_u32(b, p3) {
                    None => None,
                    Some((lineno, p4)) => Some((SymbolView { name, addr, filename, lineno }, p4)),
                },
            },
        },
    }
}

/// Parses exactly `n` symbol records, back to back.
pub open spec fn p_symbols(b: Seq<u8>, p: int, n: u64) -> Option<(Seq<SymbolView>, int)>
    decreases n,
{
    if n == 0 {
        Some((Seq::empty(), p))
    } else {
        match p_symbol(b, p) {
            None => None,
            Some((s, p1)) => match p_symbols(b, p1, (n - 1) as u64) {
                None => None,
                Some((l, p2)) => Some((seq![s] + l, p2)),
            },
        }
    }
}

/// Parses the resolution state.
pub open spec fn p_opt_symbols(b: Seq<u8>, p: int) -> Option<(Option<Seq<SymbolView>>, int)> {
    match p_u8(b, p) {
        None => None,
        Some((tag, p1)) => if tag == 0 {
            Some((None, p1))
        } else if tag == 1 {
            match p_u64(b, p1) {
                None => None,
                Some((n, p2)) => match p_symbols(b, p2, n) {
                    None => None,
                    Some((l, p3)) => Some((Some(l), p3)),
                },
            }
        } else {
            None
        },
    }
}

/// Parses one whole frame record; trailing bytes are malformed.
pub open spec fn parse_frame_view(b: Seq<u8>) -> Option<FrameView> {
    match p_u64(b, 0) {
        None => None,
        Some((ip, p1)) => match p_u64(b, p1) {
            None => None,
            Some((symbol_address, p2)) => match p_opt_symbols(b, p2) {
                None => None,
                Some((symbols, p3)) => if p3 == b.len() {
                    Some(FrameView { ip, symbol_address, symbols })
                } else {
                    None
                },
            },
        },
    }
}

// ---------------------------------------------------------------------------
// The encoder.
// ---------------------------------------------------------------------------

/// Appends a byte slice.
pub(crate) fn push_slice(out: &mut Vec<u8>, src: &[u8])
    ensures
        final(out)@ == old(out)@ + src@,
{
    let mut i: usize = 0;
    while i < src.len()
        invariant
            i <= src.len(),
            out@ == old(out)@ + src@.take(i as int),
        decreases src.len() - i,
    {
        out.push(src[i]);
        assert(old(out)@ + src@.take(i + 1) =~= (old(out)@ + src@.take(i as int)).push(
            src@[i as int],
        ));
        i = i + 1;
    }
    assert(old(out)@ + src@.take(src@.len() as int) =~= old(out)@ + src@);
}

/// Appends a 64-bit word, little endian.
fn push_u64(out: &mut Vec<u8>, x: u64)
    ensures
        final(out)@ == old(out)@ + spec_u64_to_le_bytes(x),
{
    let b = u64_to_le_bytes(x);
    push_slice(out, b.as_slice());
}

/// Appends a 32-bit word, little endian.
fn push_u32(out: &mut Vec<u8>, x: u32)
    ensures
        final(out)@ == old(out)@ + spec_u32_to_le_bytes(x),
{
    let b = u32_to_le_bytes(x);
    push_slice(out, b.as_slice());
}

/// Appends an optional byte string.
fn push_opt_bytes(out: &mut Vec<u8>, o: &Option<Vec<u8>>)
    ensures
        final(out)@ == old(out)@ + enc_opt_bytes(
            match *o {
                Some(b) => Some(b@),
                None => None,
            },
        ),
{
    match o {
        None => {
            out.push(0);
            assert(out@ =~= old(out)@ + enc_opt_bytes(None));
        },
        Some(bs) => {
            out.push(1);
            let ghost mid = out@;
            assert(mid =~= old(out)@ + seq![1u8]);
            push_u64(out, bs.len() as u64);
            push_slice(out, bs.as_slice());
            assert(out@ =~= old(out)@ + enc_opt_bytes(Some(bs@)));
        },
    }
}

/// Appends an optional 64-bit word.
fn push_opt_u64(out: &mut Vec<u8>, o: &Option<u64>)
    ensures
        final(out)@ == old(out)@ + enc_opt_u64(*o),
{
    match o {
        None => {
            out.push(0);
            assert(out@ =~= old(out)@ + enc_opt_u64(None));
        },
        Some(x) => {
            out.push(1);
            push_u64(out, *x);
            assert(out@ =~= old(out)@ + enc_opt_u64(Some(*x)));
        },
    }
}

/// Appends an optional 32-bit word.
fn push_opt_u32(out: &mut Vec<u8>, o: &Option<u32>)
    ensures
        final(out)@ == old(out)@ + enc_opt_u32(*o),
{
    match o {
        None => {
            out.push(0);
            assert(out@ =~= old(out)@ + enc_opt_u32(None));
        },
        Some(x) => {
            out.push(1);
            push_u32(out, *x);
            assert(out@ =~= old(out)@ + enc_opt_u32(Some(*x)));
        },
    }
}

/// Appends one symbol record.
fn push_symbol(out: &mut Vec<u8>, s: &BacktraceSymbol)
    ensures
        final(out)@ == old(out)@ + enc_symbol(s@),
{
    push_opt_bytes(out, &s.name);
    push_opt_u64(out, &s.addr);
    push_opt_bytes(out, &s.filename);
    push_opt_u32(out, &s.lineno);
    assert(out@ =~= old(out)@ + enc_symbol(s@));
}

/// `enc_symbols` grows one record at a time at the back.
proof fn lemma_enc_symbols_snoc(l: Seq<SymbolView>, i: int)
    requires
        0 <= i < l.len(),
    ensures
        enc_symbols(l.take(i + 1)) == enc_symbols(l.take(i)) + enc_symbol(l[i]),
    decreases i,
{
    if i == 0 {
        assert(l.take(0) =~= Seq::<SymbolView>::empty());
        assert(l.take(1) =~= seq![l[0]]);
        assert(seq![l[0]].drop_first() =~= Seq::<SymbolView>::empty());
        assert(enc_symbols(l.take(1)) =~= enc_symbols(l.take(0)) + enc_symbol(l[0]));
    } else {
        let d = l.drop_first();
        lemma_enc_symbols_snoc(d, i - 1);
        assert(l.take(i + 1).drop_first() =~= d.take(i));
        assert(l.take(i).drop_first() =~= d.take(i - 1));
        assert(l.take(i + 1)[0] == l[0]);
        assert(l.take(i)[0] == l[0]);
        assert(enc_symbols(l.take(i + 1)) == enc_symbol(l[0]) + enc_symbols(d.take(i)));
        assert(enc_symbols(l.take(i)) == enc_symbol(l[0]) + enc_symbols(d.take(i - 1)));
        assert(enc_symbol(l[0]) + (enc_symbols(d.take(i - 1)) + enc_symbol(d[i - 1])) =~= (
        enc_symbol(l[0]) + enc_symbols(d.take(i - 1))) + enc_symbol(l[i]));
    }
}

/// Appends a whole record list.
fn push_symbols(out: &mut Vec<u8>, l: &Vec<BacktraceSymbol>)
    ensures
        final(out)@ == old(out)@ + enc_symbols(l@.map_values(|s: BacktraceSymbol| s@)),
{
    let ghost lv = l@.map_values(|s: BacktraceSymbol| s@);
    let mut i: usize = 0;
    assert(lv.take(0) =~= Seq::<SymbolView>::empty());
    assert(out@ =~= old(out)@ + enc_symbols(lv.take(0)));
    while i < l.len()
        invariant
            i <= l.len(),
            lv == l@.map_values(|s: BacktraceSymbol| s@),
            out@ == old(out)@ + enc_symbols(lv.take(i as int)),
        decreases l.len() - i,
    {
        push_symbol(out, &l[i]);
        proof {
            lemma_enc_symbols_snoc(lv, i as int);
            assert((old(out)@ + enc_symbols(lv.take(i as int))) + enc_symbol(lv[i as int]) =~= old(
                out,
            )@ + (enc_symbols(lv.take(i as int)) + enc_symbol(lv[i as int])));
        }
        i = i + 1;
    }
    assert(lv.take(l@.len() as int) =~= lv);
}

impl BacktraceFrame {
    /// Serializes this frame as one flat byte record.
    pub fn encode(&self) -> (r: Vec<u8>)
        ensures
            r@ == encode_frame_view(self@),
            frame_view_fits(self@),
    {
        let mut out: Vec<u8> = Vec::new();
        push_u64(&mut out, self.frame.ip());
        push_u64(&mut out, self.frame.symbol_address());
        match &self.symbols {
            None => {
                out.push(0);
                assert(out@ =~= encode_frame_view(self@));
            },
            Some(l) => {
                out.push(1);
                push_u64(&mut out, l.len() as u64);
                push_symbols(&mut out, l);
                assert(out@ =~= encode_frame_view(self@));
            },
        }
        proof {
            match &self.symbols {
                None => {},
                Some(l) => {
                    vstd::std_specs::vec::axiom_spec_len(l);
                    let lv = l@.map_values(|s: BacktraceSymbol| s@);
                    assert forall|i: int| 0 <= i < lv.len() implies symbol_view_fits(
                        #[trigger] lv[i],
                    ) by {
                        let s = l@[i];
                        match s.name {
                            Some(n) => vstd::std_specs::vec::axiom_spec_len(&n),
                            None => (),
                        }
                        match s.filename {
                            Some(n) => vstd::std_specs::vec::axiom_spec_len(&n),
                            None => (),
                        }
                        assert(lv[i] == s@);
                    }
                },
            }
        }
        out
    }

    /// Reconstructs a frame from one flat byte record. The frame handle is
    /// rebuilt from the two stored addresses; the record list is restored
    /// exactly as serialized, `None` and `Some` with zero records included.
    /// A record that does not parse, or has trailing bytes, is malformed.
    pub fn decode(bytes: &[u8]) -> (r: Result<BacktraceFrame, DecodeError>)
        ensures
            r is Ok <==> parse_frame_view(bytes@) is Some,
            r matches Ok(f) ==> parse_frame_view(bytes@) == Some(f@),
    {
        let (ip, p1) = match d_u64(bytes, 0) {
            Some(v) => v,
            None => {
                return Err(DecodeError);
            },
        };
        let (symbol_address, p2) = match d_u64(bytes, p1) {
            Some(v) => v,
            None => {
                return Err(DecodeError);
            },
        };
        let (symbols, p3) = match d_opt_symbols(bytes, p2) {
            Some(v) => v,
            None => {
                return Err(DecodeError);
            },
        };
        if p3 != bytes.len() {
            return Err(DecodeError);
        }
        let f = BacktraceFrame { frame: Frame::Deserialized { ip, symbol_address }, symbols };
        assert(parse_frame_view(bytes@) == Some(f@));
        Ok(f)
    }
}

// ---------------------------------------------------------------------------
// The decoder: each step returns exactly what the spec parser says.
// ---------------------------------------------------------------------------

/// Reads one byte.
fn d_u8(b: &[u8], p: usize) -> (r: Option<(u8, usize)>)
    ensures
        match r {
            Some(v) => p_u8(b@, p as int) == Some((v.0, v.1 as int)),
            None => p_u8(b@, p as int) is None,
        },
{
    if p < b.len() {
        Some((b[p], p + 1))
    } else {
        None
    }
}

/// Reads a little-endian 64-bit word.
fn d_u64(b: &[u8], p: usize) -> (r: Option<(u64, usize)>)
    ensures
        match r {
            Some(v) => p_u64(b@, p as int) == Some((v.0, v.1 as int)),
            None => p_u64(b@, p as int) is None,
        },
{
    if b.len() >= 8 && p <= b.len() - 8 {
        let w = slice_subrange(b, p, p + 8);
        let x = u64_from_le_bytes(w);
        Some((x, p + 8))
    } else {
        None
    }
}

/// Reads a little-endian 32-bit word.
fn d_u32(b: &[u8], p: usize) -> (r: Option<(u32, usize)>)
    ensures
        match r {
            Some(v) => p_u32(b@, p as int) == Some((v.0, v.1 as int)),
            None => p_u32(b@, p as int) is None,
        },
{
    if b.len() >= 4 && p <= b.len() - 4 {
        let w = slice_subrange(b, p, p + 4);
        let x = u32_from_le_bytes(w);
        Some((x, p + 4))
    } else {
        None
    }
}

/// Takes `n` raw bytes.
fn d_bytes(b: &[u8], p: usize, n: u64) -> (r: Option<(Vec<u8>, usize)>)
    ensures
        match r {
            Some(v) => p_bytes(b@, p as int, n) == Some((v.0@, v.1 as int)),
            None => p_bytes(b@, p as int, n) is None,
        },
{
    if p <= b.len() && n <= (b.len() - p) as u64 {
        let nn = n as usize;
        let w = slice_subrange(b, p, p + nn);
        let v = slice_to_vec(w);
        Some((v, p + nn))
    } else {
        None
    }
}

/// The view an optional byte vector decodes to.
pub(crate) open spec fn opt_bytes_view(o: Option<Vec<u8>>) -> Option<Seq<u8>> {
    match o {
        Some(v) => Some(v@),
        None => None,
    }
}

/// Reads an optional byte string.
fn d_opt_bytes(b: &[u8], p: usize) -> (r: Option<(Option<Vec<u8>>, usize)>)
    ensures
        match r {
            Some(v) => p_opt_bytes(b@, p as int) == Some((opt_bytes_view(v.0), v.1 as int)),
            None => p_opt_bytes(b@, p as int) is None,
        },
{
    match d_u8(b, p) {
        None => None,
        Some((tag, p1)) => if tag == 0 {
            Some((None, p1))
        } else if tag == 1 {
            match d_u64(b, p1) {
                None => None,
                Some((n, p2)) => match d_bytes(b, p2, n) {
                    None => None,
                    Some((bs, p3)) => Some((Some(bs), p3)),
                },
            }
        } else {
            None
        },
    }
}

/// Reads an optional 64-bit word.
fn d_opt_u64(b: &[u8], p: usize) -> (r: Option<(Option<u64>, usize)>)
    ensures
        match r {
            Some(v) => p_opt_u64(b@, p as int) == Some((v.0, v.1 as int)),
            None => p_opt_u64(b@, p as int) is None,
        },
{
    match d_u8(b, p) {
        None => None,
        Some((tag, p1)) => if tag == 0 {
            Some((None, p1))
        } else if tag == 1 {
            match d_u64(b, p1) {
                None => None,
                Some((x, p2)) => Some((Some(x), p2)),
            }
        } else {
            None
        },
    }
}

/// Reads an optional 32-bit word.
fn d_opt_u32(b: &[u8], p: usize) -> (r: Option<(Option<u32>, usize)>)
    ensures
        match r {
            Some(v) => p_opt_u32(b@, p as int) == Some((v.0, v.1 as int)),
            None => p_opt_u32(b@, p as int) is None,
        },
{
    match d_u8(b, p) {
        None => None,
        Some((tag, p1)) => if tag == 0 {
            Some((None, p1))
        } else if tag == 1 {
            match d_u32(b, p1) {
                None => None,
                Some((x, p2)) => Some((Some(x), p2)),
            }
        } else {
            None
        },
    }
}

/// Reads one symbol record.
fn d_symbol(b: &[u8], p: usize) -> (r: Option<(BacktraceSymbol, usize)>)
    ensures
        match r {
            Some(v) => p_symbol(b@, p as int) == Some((v.0@, v.1 as int)),
            None => p_symbol(b@, p as int) is None,
        },
{
    let (name, p1) = match d_opt_bytes(b, p) {
        Some(v) => v,
        None => {
            return None;
        },
    };
    let (addr, p2) = match d_opt_u64(b, p1) {
        Some(v) => v,
        None => {
            return None;
        },
    };
    let (filename, p3) = match d_opt_bytes(b, p2) {
        Some(v) => v,
        None => {
            return None;
        },
    };
    let (lineno, p4) = match d_opt_u32(b, p3) {
        Some(v) => v,
        None => {
            return None;
        },
    };
    let s = BacktraceSymbol { name, addr, filename, lineno };
    assert(p_symbol(b@, p as int) == Some((s@, p4 as int)));
    Some((s, p4))
}

/// Reads exactly `n` symbol records, back to back.
fn d_symbols(b: &[u8], p: usize, n: u64) -> (r: Option<(Vec<BacktraceSymbol>, usize)>)
    ensures
        match r {
            Some(v) => p_symbols(b@, p as int, n) == Some(
                (v.0@.map_values(|s: BacktraceSymbol| s@), v.1 as int),
            ),
            None => p_symbols(b@, p as int, n) is None,
        },
{
    let mut acc: Vec<BacktraceSymbol> = Vec::new();
    let mut pos: usize = p;
    let mut k: u64 = 0;
    assert(acc@.map_values(|s: BacktraceSymbol| s@) =~= Seq::<SymbolView>::empty());
    while k < n
        invariant
            k <= n,
            match p_symbols(b@, pos as int, (n - k) as u64) {
                Some(rest) => p_symbols(b@, p as int, n) == Some(
                    (acc@.map_values(|s: BacktraceSymbol| s@) + rest.0, rest.1),
                ),
                None => p_symbols(b@, p as int, n) is None,
            },
        decreases n - k,
    {
        let ghost accv = acc@.map_values(|s: BacktraceSymbol| s@);
        match d_symbol(b, pos) {
            None => {
                assert(p_symbols(b@, pos as int, (n - k) as u64) is None);
                return None;
            },
            Some((s, q)) => {
                proof {
                    let m = (n - k) as u64;
                    assert(p_symbols(b@, pos as int, m) == (match p_symbols(
                        b@,
                        q as int,
                        (m - 1) as u64,
                    ) {
                        None => None::<(Seq<SymbolView>, int)>,
                        Some((l, p2)) => Some((seq![s@] + l, p2)),
                    }));
                    if let Some((l, p2)) = p_symbols(b@, q as int, (m - 1) as u64) {
                        assert(accv + (seq![s@] + l) =~= (accv.push(s@)) + l);
                        assert(acc@.push(s).map_values(|t: BacktraceSymbol| t@) =~= accv.push(
                            s@,
                        ));
                    }
                }
                acc.push(s);
                pos = q;
                k = k + 1;
            },
        }
    }
    assert(p_symbols(b@, pos as int, 0) == Some((Seq::<SymbolView>::empty(), pos as int)));
    assert(acc@.map_values(|s: BacktraceSymbol| s@) + Seq::<SymbolView>::empty() =~= acc@.map_values(
        |s: BacktraceSymbol| s@,
    ));
    Some((acc, pos))
}

/// The view an optional record list decodes to.
pub(crate) open spec fn opt_symbols_view(o: Option<Vec<BacktraceSymbol>>) -> Option<
    Seq<SymbolView>,
> {
    match o {
        Some(l) => Some(l@.map_values(|s: BacktraceSymbol| s@)),
        None => None,
    }
}

/// Reads the resolution state.
fn d_opt_symbols(b: &[u8], p: usize) -> (r: Option<(Option<Vec<BacktraceSymbol>>, usize)>)
    ensures
        match r {
            Some(v) => p_opt_symbols(b@, p as int) == Some((opt_symbols_view(v.0), v.1 as int)),
            None => p_opt_symbols(b@, p as int) is None,
        },
{
    match d_u8(b, p) {
        None => None,
        Some((tag, p1)) => if tag == 0 {
            Some((None, p1))
        } else if tag == 1 {
            match d_u64(b, p1) {
                None => None,
                Some((n, p2)) => match d_symbols(b, p2, n) {
                    None => None,
                    Some((l, p3)) => Some((Some(l), p3)),
                },
            }
        } else {
            None
        },
    }
}

// ---------------------------------------------------------------------------
// Round trip: parsing an encoded frame yields the frame back.
// ---------------------------------------------------------------------------

/// Splitting a known two-part segment of a byte sequence into its parts.
proof fn lemma_split_segment(b: Seq<u8>, p: int, x: Seq<u8>, y: Seq<u8>)
    requires
        0 <= p,
        p + x.len() + y.len() <= b.len(),
        b.subrange(p, p + x.len() + y.len()) == x + y,
    ensures
        b.subrange(p, p + x.len()) == x,
        b.subrange(p + x.len(), p + x.len() + y.len()) == y,
{
    let whole = p + x.len() + y.len();
    assert forall|j: int| 0 <= j < x.len() implies b.subrange(p, p + x.len())[j] == x[j] by {
        assert(b.subrange(p, p + x.len())[j] == b[p + j]);
        assert(b.subrange(p, whole)[j] == b[p + j]);
        assert((x + y)[j] == x[j]);
    }
    assert(b.subrange(p, p + x.len()) =~= x);
    assert forall|j: int|
        0 <= j < y.len() implies b.subrange(p + x.len(), whole)[j] == y[j] by {
        assert(b.subrange(p + x.len(), whole)[j] == b[p + x.len() + j]);
        assert(b.subrange(p, whole)[x.len() + j] == b[p + x.len() + j]);
        assert((x + y)[x.len() + j] == y[j]);
    }
    assert(b.subrange(p + x.len(), whole) =~= y);
}

/// A 64-bit word parses back from its own encoding, wherever it sits.
proof fn lemma_p_u64_at(b: Seq<u8>, p: int, x: u64)
    requires
        0 <= p,
        p + 8 <= b.len(),
        b.subrange(p, p + 8) == spec_u64_to_le_bytes(x),
    ensures
        p_u64(b, p) == Some((x, p + 8)),
{
    lemma_auto_spec_u64_to_from_le_bytes();
}

/// A 32-bit word parses back from its own encoding, wherever it sits.
proof fn lemma_p_u32_at(b: Seq<u8>, p: int, x: u32)
    requires
        0 <= p,
        p + 4 <= b.len(),
        b.subrange(p, p + 4) == spec_u32_to_le_bytes(x),
    ensures
        p_u32(b, p) == Some((x, p + 4)),
{
    lemma_auto_spec_u32_to_from_le_bytes();
    assert(spec_u32_to_le_bytes(x).len() == 4);
    assert(spec_u32_from_le_bytes(spec_u32_to_le_bytes(x)) == x);
}

/// An optional byte string parses back from its own encoding.
proof fn lemma_p_opt_bytes_at(b: Seq<u8>, p: int, o: Option<Seq<u8>>)
    requires
        0 <= p,
        o matches Some(bs) ==> bs.len() <= u64::MAX,
        p + enc_opt_bytes(o).len() <= b.len(),
        b.subrange(p, p + enc_opt_bytes(o).len()) == enc_opt_bytes(o),
    ensures
        p_opt_bytes(b, p) == Some((o, p + enc_opt_bytes(o).len())),
{
    match o {
        None => {
            assert(b.subrange(p, p + 1)[0] == b[p]);
        },
        Some(bs) => {
            lemma_auto_spec_u64_to_from_le_bytes();
            let le = spec_u64_to_le_bytes(bs.len() as u64);
            lemma_split_segment(b, p, seq![1u8] + le, bs);
            lemma_split_segment(b, p, seq![1u8], le);
            assert(b.subrange(p, p + 1)[0] == b[p]);
            assert((seq![1u8])[0] == 1u8);
            lemma_p_u64_at(b, p + 1, bs.len() as u64);
            assert(bs.len() as u64 as int == bs.len() as int);
        },
    }
}

/// An optional 64-bit word parses back from its own encoding.
proof fn lemma_p_opt_u64_at(b: Seq<u8>, p: int, o: Option<u64>)
    requires
        0 <= p,
        p + enc_opt_u64(o).len() <= b.len(),
        b.subrange(p, p + enc_opt_u64(o).len()) == enc_opt_u64(o),
    ensures
        p_opt_u64(b, p) == Some((o, p + enc_opt_u64(o).len())),
{
    match o {
        None => {
            assert(b.subrange(p, p + 1)[0] == b[p]);
        },
        Some(x) => {
            lemma_auto_spec_u64_to_from_le_bytes();
            let le = spec_u64_to_le_bytes(x);
            lemma_split_segment(b, p, seq![1u8], le);
            assert(b.subrange(p, p + 1)[0] == b[p]);
            assert((seq![1u8])[0] == 1u8);
            lemma_p_u64_at(b, p + 1, x);
        },
    }
}

/// An optional 32-bit word parses back from its own encoding.
proof fn lemma_p_opt_u32_at(b: Seq<u8>, p: int, o: Option<u32>)
    requires
        0 <= p,
        p + enc_opt_u32(o).len() <= b.len(),
        b.subrange(p, p + enc_opt_u32(o).len()) == enc_opt_u32(o),
    ensures
        p_opt_u32(b, p) == Some((o, p + enc_opt_u32(o).len())),
{
    match o {
        None => {
            assert(b.subrange(p, p + 1)[0] == b[p]);
        },
        Some(x) => {
            lemma_auto_spec_u32_to_from_le_bytes();
            let le = spec_u32_to_le_bytes(x);
            lemma_split_segment(b, p, seq![1u8], le);
            assert(b.subrange(p, p + 1)[0] == b[p]);
            assert((seq![1u8])[0] == 1u8);
            lemma_p_u32_at(b, p + 1, x);
        },
    }
}

/// A symbol record parses back from its own encoding.
proof fn lemma_p_symbol_at(b: Seq<u8>, p: int, s: SymbolView)
    requires
        0 <= p,
        symbol_view_fits(s),
        p + enc_symbol(s).len() <= b.len(),
        b.subrange(p, p + enc_symbol(s).len()) == enc_symbol(s),
    ensures
        p_symbol(b, p) == Some((s, p + enc_symbol(s).len())),
{
    let e1 = enc_opt_bytes(s.name);
    let e2 = enc_opt_u64(s.addr);
    let e3 = enc_opt_bytes(s.filename);
    let e4 = enc_opt_u32(s.lineno);
    lemma_split_segment(b, p, (e1 + e2) + e3, e4);
    lemma_split_segment(b, p, e1 + e2, e3);
    lemma_split_segment(b, p, e1, e2);
    lemma_p_opt_bytes_at(b, p, s.name);
    lemma_p_opt_u64_at(b, p + e1.len(), s.addr);
    lemma_p_opt_bytes_at(b, p + e1.len() + e2.len(), s.filename);
    lemma_p_opt_u32_at(b, p + e1.len() + e2.len() + e3.len(), s.lineno);
    assert(SymbolView { name: s.name, addr: s.addr, filename: s.filename, lineno: s.lineno }
        =~= s);
}

/// A record list parses back from its own encoding.
proof fn lemma_p_symbols_at(b: Seq<u8>, p: int, l: Seq<SymbolView>)
    requires
        0 <= p,
        l.len() <= u64::MAX,
        forall|i: int| 0 <= i < l.len() ==> symbol_view_fits(#[trigger] l[i]),
        p + enc_symbols(l).len() <= b.len(),
        b.subrange(p, p + enc_symbols(l).len()) == enc_symbols(l),
    ensures
        p_symbols(b, p, l.len() as u64) == Some((l, p + enc_symbols(l).len())),
    decreases l.len(),
{
    if l.len() == 0 {
        assert(Seq::<SymbolView>::empty() =~= l);
    } else {
        let e0 = enc_symbol(l[0]);
        let rest = l.drop_first();
        let er = enc_symbols(rest);
        lemma_split_segment(b, p, e0, er);
        lemma_p_symbol_at(b, p, l[0]);
        assert(forall|i: int| 0 <= i < rest.len() ==> rest[i] == l[i + 1]);
        lemma_p_symbols_at(b, p + e0.len(), rest);
        assert((l.len() as u64 - 1) as u64 == rest.len() as u64);
        assert(seq![l[0]] + rest =~= l);
    }
}

/// Round trip: parsing the encoding of any frame record yields exactly that
/// record back, addresses, resolution state and every symbol field alike.
pub proof fn lemma_frame_round_trip(f: FrameView)
    requires
        frame_view_fits(f),
    ensures
        parse_frame_view(encode_frame_view(f)) == Some(f),
{
    let b = encode_frame_view(f);
    let li = spec_u64_to_le_bytes(f.ip);
    let ls = spec_u64_to_le_bytes(f.symbol_address);
    let eo = enc_opt_symbols(f.symbols);
    lemma_auto_spec_u64_to_from_le_bytes();
    assert(b.subrange(0, b.len() as int) =~= b);
    lemma_split_segment(b, 0, li + ls, eo);
    lemma_split_segment(b, 0, li, ls);
    lemma_p_u64_at(b, 0, f.ip);
    lemma_p_u64_at(b, 8, f.symbol_address);
    match f.symbols {
        None => {
            assert(b.subrange(16, 17)[0] == b[16]);
            assert((seq![0u8])[0] == 0u8);
            assert(FrameView { ip: f.ip, symbol_address: f.symbol_address, symbols: None } =~= f);
        },
        Some(l) => {
            let le = spec_u64_to_le_bytes(l.len() as u64);
            let es = enc_symbols(l);
            lemma_split_segment(b, 16, seq![1u8] + le, es);
            lemma_split_segment(b, 16, seq![1u8], le);
            assert(b.subrange(16, 17)[0] == b[16]);
            assert((seq![1u8])[0] == 1u8);
            lemma_p_u64_at(b, 17, l.len() as u64);
            lemma_p_symbols_at(b, 25, l);
            assert(l.len() as u64 as int == l.len() as int);
            assert(FrameView { ip: f.ip, symbol_address: f.symbol_address, symbols: Some(l) }
                =~= f);
        },
    }
}

/// Re-encoding what an encoded record decodes to reproduces the exact
/// original bytes: the unresolved state, like everything else, survives the
/// trip at byte level.
pub proof fn lemma_reencode_exact(f: FrameView)
    requires
        frame_view_fits(f),
    ensures
        parse_frame_view(encode_frame_view(f)) matches Some(g) && encode_frame_view(g)
            == encode_frame_view(f),
{
    lemma_frame_round_trip(f);
}

} // verus!
