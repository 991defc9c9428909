//! Owned, resolver-independent symbol metadata.

use vstd::prelude::*;

verus! {

/// Ghost model of one symbol record: every field is optional, and absent
/// metadata is an absent value, never a failure.
#[verifier::ext_equal]
pub struct SymbolView {
    pub name: Option<Seq<u8>>,
    pub addr: Option<u64>,
    pub filename: Option<Seq<u8>>,
    pub lineno: Option<u32>,
}

/// An owned copy of one symbol's metadata: name bytes (preserved verbatim,
/// not guaranteed to be valid text), resolved symbol-table address, source
/// file path (as raw bytes) and source line number.
#[derive(Clone, Debug, PartialEq, Eq)]
pub struct BacktraceSymbol {
    pub(crate) name: Option<Vec<u8>>,
    pub(crate) addr: Option<u64>,
    pub(crate) filename: Option<Vec<u8>>,
    pub(crate) lineno: Option<u32>,
}

impl View for BacktraceSymbol {
    type V = SymbolView;

    open(crate) spec fn view(&self) -> SymbolView {
        SymbolView {
            name: match self.name {
                Some(n) => Some(n@),
                None => None,
            },
            addr: self.addr,
            filename: match self.filename {
                Some(f) => Some(f@),
                None => None,
            },
            lineno: self.lineno,
        }
    }
}

impl BacktraceSymbol {
    /// Builds one symbol record from the fields an external resolver
    /// reported; this is how the resolution adapter normalizes one callback.
    pub fn new(
        name: Option<Vec<u8>>,
        addr: Option<u64>,
        filename: Option<Vec<u8>>,
        lineno: Option<u32>,
    ) -> (r: BacktraceSymbol)
        ensures
            r@.name == (match name {
                Some(n) => Some(n@),
                None => None::<Seq<u8>>,
            }),
            r@.addr == addr,
            r@.filename == (match filename {
                Some(f) => Some(f@),
                None => None::<Seq<u8>>,
            }),
            r@.lineno == lineno,
    {
        BacktraceSymbol { name, addr, filename, lineno }
    }

    /// The raw symbol name bytes, if the resolver reported one.
    pub fn name(&self) -> (r: Option<&Vec<u8>>)
        ensures
            r is Some <==> self@.name is Some,
            r matches Some(v) ==> self@.name == Some(v@),
    {
        self.name.as_ref()
    }

    /// The resolved symbol-table address, if the resolver reported one; it
    /// may differ from the frame's instruction pointer.
    pub fn addr(&self) -> (r: Option<u64>)
        ensures
            r == self@.addr,
    {
        self.addr
    }

    /// The source file path, as raw path bytes, if the resolver reported one.
    pub fn filename(&self) -> (r: Option<&Vec<u8>>)
        ensures
            r is Some <==> self@.filename is Some,
            r matches Some(v) ==> self@.filename == Some(v@),
    {
        self.filename.as_ref()
    }

    /// The source line number, if the resolver reported one.
    pub fn lineno(&self) -> (r: Option<u32>)
        ensures
            r == self@.lineno,
    {
        self.lineno
    }

    /// Deep copy; the copy shares no storage with the original.
    pub fn duplicate(&self) -> (r: BacktraceSymbol)
        ensures
            r@ == self@,
    {
        BacktraceSymbol {
            name: copy_opt_bytes(&self.name),
            addr: self.addr,
            filename: copy_opt_bytes(&self.filename),
            lineno: self.lineno,
        }
    }
}

/// Deep copy of an optional byte vector.
pub(crate) fn copy_opt_bytes(v: &Option<Vec<u8>>) -> (r: Option<Vec<u8>>)
    ensures
        r is Some <==> v is Some,
        r matches Some(rv) ==> v matches Some(vv) && rv@ == vv@,
{
    match v {
        Some(b) => Some(copy_bytes(b)),
        None => None,
    }
}

/// Deep copy of a byte vector.
pub(crate) fn copy_bytes(v: &Vec<u8>) -> (r: Vec<u8>)
    ensures
        r@ == v@,
{
    let mut r: Vec<u8> = Vec::new();
    let mut i: usize = 0;
    while i < v.len()
        invariant
            i <= v.len(),
            r@ == v@.take(i as int),
        decreases v.len() - i,
    {
        r.push(v[i]);
        assert(v@.take(i + 1 as int) =~= v@.take(i as int).push(v@[i as int]));
        i = i + 1;
    }
    assert(v@.take(v.len() as int) =~= v@);
    r
}

} // verus!
