//! The resolution adapter: the engine's model of the external symbol
//! resolver collaborator.

use vstd::prelude::*;

use crate::frame::FrameView;
use crate::symbol::BacktraceSymbol;
use crate::symbol::SymbolView;

verus! {

/// Ghost model of one resolver answer: the records the external resolver
/// reports for one address.
#[verifier::ext_equal]
pub struct ResolverEntryView {
    pub addr: u64,
    pub symbols: Seq<SymbolView>,
}

/// One resolver answer: the symbol records the external resolver reported
/// for one address, in callback order (innermost function first).
#[derive(Clone, Debug, PartialEq, Eq)]
pub struct ResolverEntry {
    pub(crate) addr: u64,
    pub(crate) symbols: Vec<BacktraceSymbol>,
}

impl View for ResolverEntry {
    type V = ResolverEntryView;

    open(crate) spec fn view(&self) -> ResolverEntryView {
        ResolverEntryView {
            addr: self.addr,
            symbols: self.symbols@.map_values(|s: BacktraceSymbol| s@),
        }
    }
}

/// The engine's stand-in for the external symbol resolver: a finite table of
/// answers, one per address the caller's resolver knows about. The engine
/// maintains no platform symbol table of its own; the caller supplies
/// whatever its resolver reports, and an address missing from the table
/// resolves to zero records, exactly as an unavailable resolver would.
#[derive(Clone, Debug, PartialEq, Eq)]
pub struct SymbolResolver {
    pub(crate) entries: Vec<ResolverEntry>,
}

impl View for SymbolResolver {
    type V = Seq<ResolverEntryView>;

    open(crate) spec fn view(&self) -> Seq<ResolverEntryView> {
        self.entries@.map_values(|e: ResolverEntry| e@)
    }
}

/// The records an address resolves to: those of the first table entry for
/// the address, and zero records when no entry matches.
pub open spec fn lookup_spec(entries: Seq<ResolverEntryView>, addr: u64) -> Seq<SymbolView>
    decreases entries.len(),
{
    if entries.len() == 0 {
        Seq::empty()
    } else if entries[0].addr == addr {
        entries[0].symbols
    } else {
        lookup_spec(entries.drop_first(), addr)
    }
}

/// Resolution of one frame: a frame already holding records is untouched;
/// an unresolved frame receives the records its instruction pointer resolves
/// to, and is from then on resolved, possibly with an empty record list.
pub open spec fn resolve_frame_view(f: FrameView, entries: Seq<ResolverEntryView>) -> FrameView {
    match f.symbols {
        Some(_) => f,
        None => FrameView { symbols: Some(lookup_spec(entries, f.ip)), ..f },
    }
}

impl SymbolResolver {
    /// An empty table: every address resolves to zero records.
    pub fn new() -> (r: SymbolResolver)
        ensures
            r@ == Seq::<ResolverEntryView>::empty(),
    {
        let r = SymbolResolver { entries: Vec::new() };
        assert(r@ =~= Seq::<ResolverEntryView>::empty());
        r
    }

    /// Appends one answer: `addr` resolves to `symbols`, unless an earlier
    /// entry for the same address already decides it.
    pub fn add(&mut self, addr: u64, symbols: Vec<BacktraceSymbol>)
        ensures
            final(self)@ == old(self)@.push(
                ResolverEntryView {
                    addr,
                    symbols: symbols@.map_values(|s: BacktraceSymbol| s@),
                },
            ),
    {
        let ghost before = self@;
        self.entries.push(ResolverEntry { addr, symbols });
        assert(self@ =~= before.push(
            ResolverEntryView {
                addr,
                symbols: symbols@.map_values(|s: BacktraceSymbol| s@),
            },
        ));
    }

    /// Resolves one address: a deep copy of the first matching entry's
    /// records, or zero records when no entry matches.
    pub fn lookup(&self, addr: u64) -> (r: Vec<BacktraceSymbol>)
        ensures
            r@.map_values(|s: BacktraceSymbol| s@) == lookup_spec(self@, addr),
    {
        let mut i: usize = 0;
        assert(self@.skip(0) =~= self@);
        while i < self.entries.len()
            invariant
                i <= self.entries.len(),
                lookup_spec(self@, addr) == lookup_spec(self@.skip(i as int), addr),
            decreases self.entries.len() - i,
        {
            assert(self@.skip(i as int)[0] == self@[i as int]);
            if self.entries[i].addr == addr {
                return crate::frame::copy_symbols(&self.entries[i].symbols);
            }
            assert(self@.skip(i as int).drop_first() =~= self@.skip(i + 1));
            i = i + 1;
        }
        assert(self@.skip(i as int).len() == 0);
        let r: Vec<BacktraceSymbol> = Vec::new();
        assert(r@.map_values(|s: BacktraceSymbol| s@) =~= Seq::<SymbolView>::empty());
        r
    }
}

} // verus!
