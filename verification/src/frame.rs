//! Frame handles and captured frames.

use vstd::prelude::*;

use crate::symbol::BacktraceSymbol;
use crate::symbol::SymbolView;

verus! {

/// One raw frame token as reported by the external stack walker, reduced to
/// the two addresses the engine ever reads: the instruction pointer and the
/// symbol-table lookup address. Addresses identify frames; they are never
/// dereferenced here.
#[derive(Clone, Copy, Debug, PartialEq, Eq, Structural)]
pub struct RawFrame {
    pub ip: u64,
    pub symbol_address: u64,
}

/// A frame handle: either freshly captured (backed by the walker's token) or
/// reconstructed from serialized data (address pair only). Both variants
/// answer the two address accessors identically; only provenance differs.
#[derive(Clone, Copy, Debug, PartialEq, Eq)]
pub(crate) enum Frame {
    Raw(RawFrame),
    Deserialized { ip: u64, symbol_address: u64 },
}

impl Frame {
    pub(crate) open spec fn spec_ip(&self) -> u64 {
        match *self {
            Frame::Raw(f) => f.ip,
            Frame::Deserialized { ip, .. } => ip,
        }
    }

    pub(crate) open spec fn spec_symbol_address(&self) -> u64 {
        match *self {
            Frame::Raw(f) => f.symbol_address,
            Frame::Deserialized { symbol_address, .. } => symbol_address,
        }
    }

    pub(crate) fn ip(&self) -> (r: u64)
        ensures
            r == self.spec_ip(),
    {
        match *self {
            Frame::Raw(f) => f.ip,
            Frame::Deserialized { ip, .. } => ip,
        }
    }

    pub(crate) fn symbol_address(&self) -> (r: u64)
        ensures
            r == self.spec_symbol_address(),
    {
        match *self {
            Frame::Raw(f) => f.symbol_address,
            Frame::Deserialized { symbol_address, .. } => symbol_address,
        }
    }
}

/// Ghost model of one captured frame. Provenance (live versus reconstructed)
/// is deliberately absent: callers cannot distinguish it through behavior.
#[verifier::ext_equal]
pub struct FrameView {
    pub ip: u64,
    pub symbol_address: u64,
    pub symbols: Option<Seq<SymbolView>>,
}

/// One captured stack frame: a frame handle paired with its resolution
/// state. `symbols` is `None` until the frame is resolved, then `Some(list)`
/// forever: an empty list when the resolver found nothing at the address,
/// several entries when inlined functions share the frame (innermost first).
#[derive(Clone, Debug, PartialEq, Eq)]
pub struct BacktraceFrame {
    pub(crate) frame: Frame,
    pub(crate) symbols: Option<Vec<BacktraceSymbol>>,
}

impl View for BacktraceFrame {
    type V = FrameView;

    open(crate) spec fn view(&self) -> FrameView {
        FrameView {
            ip: self.frame.spec_ip(),
            symbol_address: self.frame.spec_symbol_address(),
            symbols: match self.symbols {
                Some(v) => Some(v@.map_values(|s: BacktraceSymbol| s@)),
                None => None,
            },
        }
    }
}

impl BacktraceFrame {
    /// The frame's instruction pointer.
    pub fn ip(&self) -> (r: u64)
        ensures
            r == self@.ip,
    {
        self.frame.ip()
    }

    /// The frame's symbol-table lookup address.
    pub fn symbol_address(&self) -> (r: u64)
        ensures
            r == self@.symbol_address,
    {
        self.frame.symbol_address()
    }

    /// The frame's resolution state: `None` when not yet resolved, otherwise
    /// the resolved symbol records, innermost function first.
    pub fn symbols(&self) -> (r: Option<&Vec<BacktraceSymbol>>)
        ensures
            r is Some <==> self@.symbols is Some,
            r matches Some(v) ==> self@.symbols == Some(v@.map_values(|s: BacktraceSymbol| s@)),
    {
        self.symbols.as_ref()
    }

    /// Deep copy; the copy shares no storage with the original.
    pub fn duplicate(&self) -> (r: BacktraceFrame)
        ensures
            r@ == self@,
    {
        let symbols = match &self.symbols {
            Some(v) => Some(copy_symbols(v)),
            None => None,
        };
        let r = BacktraceFrame { frame: self.frame, symbols };
        assert(r@ =~= self@);
        r
    }
}

/// Deep copy of a symbol record list.
pub(crate) fn copy_symbols(v: &Vec<BacktraceSymbol>) -> (r: Vec<BacktraceSymbol>)
    ensures
        r@.map_values(|s: BacktraceSymbol| s@) == v@.map_values(|s: BacktraceSymbol| s@),
{
    let mut r: Vec<BacktraceSymbol> = Vec::new();
    let mut i: usize = 0;
    while i < v.len()
        invariant
            i <= v.len(),
            r@.len() == i as int,
            forall|j: int| 0 <= j < i ==> r@[j]@ == v@[j]@,
        decreases v.len() - i,
    {
        r.push(v[i].duplicate());
        i = i + 1;
    }
    assert(r@.map_values(|s: BacktraceSymbol| s@) =~= v@.map_values(|s: BacktraceSymbol| s@));
    r
}

} // verus!
