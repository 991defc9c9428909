use backtrace_capture::Backtrace;
use backtrace_capture::BacktraceSymbol;
use backtrace_capture::RawFrame;
use backtrace_capture::SymbolResolver;

fn raw(ip: u64, symbol_address: u64) -> RawFrame {
    RawFrame { ip, symbol_address }
}

#[test]
fn capture_trims_the_capture_routine_frame() {
    // A calls B calls C, C captures: the walker reports the capture
    // routine's own frame first, then C, B, A and the thread start.
    let walk = vec![
        raw(0x101, 0x100), // the capture entry routine itself
        raw(0x201, 0x200), // C
        raw(0x301, 0x300), // B
        raw(0x401, 0x400), // A
        raw(0x501, 0x500), // thread start
    ];
    let bt = Backtrace::new_unresolved(&walk, 0x100);
    let visible = bt.frames();
    assert_eq!(visible.len(), 4);
    assert_eq!(visible[0].ip(), 0x201);
    assert_eq!(visible[1].ip(), 0x301);
    assert_eq!(visible[2].ip(), 0x401);
    assert_eq!(visible[3].ip(), 0x501);
    for f in visible {
        assert_ne!(f.symbol_address(), 0x100);
    }
}

#[test]
fn capture_three_deep_chain_counts() {
    let walk = vec![raw(0x11, 0x10), raw(0x21, 0x20), raw(0x31, 0x30), raw(0x41, 0x40)];
    let bt = Backtrace::new_unresolved(&walk, 0x10);
    // Untrimmed count is the full walk; the clone keeps every frame.
    let all: Vec<_> = bt.clone().into_frames();
    assert!(all.len() >= 3);
    assert_eq!(all.len(), 4);
    // The visible frames exclude the capture routine, innermost first.
    let visible = bt.frames();
    assert_eq!(visible.len(), 3);
    assert!(visible.iter().all(|f| f.symbol_address() != 0x10));
}

#[test]
fn capture_without_marker_match_trims_nothing() {
    let walk = vec![raw(0x11, 0x10), raw(0x21, 0x20)];
    let bt = Backtrace::new_unresolved(&walk, 0x999);
    assert_eq!(bt.frames().len(), 2);
    assert_eq!(bt.frames()[0].ip(), 0x11);
}

#[test]
fn capture_trims_only_up_to_first_match() {
    // A later frame carrying the marker address again is kept.
    let walk = vec![raw(0x11, 0x10), raw(0x21, 0x20), raw(0x31, 0x10)];
    let bt = Backtrace::new_unresolved(&walk, 0x10);
    let visible = bt.frames();
    assert_eq!(visible.len(), 2);
    assert_eq!(visible[1].symbol_address(), 0x10);
}

#[test]
fn trim_index_never_exceeds_the_frame_count() {
    // The marker matches the very last walked frame: everything is
    // trimmed, and the visible range is empty rather than out of bounds.
    let walk = vec![raw(0x11, 0x10), raw(0x21, 0x20), raw(0x31, 0x30)];
    let bt = Backtrace::new_unresolved(&walk, 0x30);
    assert_eq!(bt.frames().len(), 0);
    assert_eq!(bt.into_frames().len(), 3);
}

#[test]
fn default_backtrace_is_the_degenerate_capture() {
    let bt = Backtrace::default();
    assert_eq!(bt.frames().len(), 0);
    assert_eq!(bt.render(false), b"stack backtrace:".to_vec());
}

#[test]
fn capture_of_empty_walk_yields_empty_backtrace() {
    let walk: Vec<RawFrame> = Vec::new();
    let bt = Backtrace::new_unresolved(&walk, 0x10);
    assert_eq!(bt.frames().len(), 0);
}

#[test]
fn unresolved_capture_has_no_symbols() {
    let walk = vec![raw(0x11, 0x10), raw(0x21, 0x20)];
    let bt = Backtrace::new_unresolved(&walk, 0x999);
    for f in bt.frames() {
        assert!(f.symbols().is_none());
    }
}

#[test]
fn new_resolves_every_frame() {
    let walk = vec![raw(0x11, 0x10), raw(0x21, 0x20)];
    let mut resolver = SymbolResolver::new();
    resolver.add(
        0x11,
        vec![BacktraceSymbol::new(Some(b"inner".to_vec()), Some(0x10), None, None)],
    );
    let bt = Backtrace::new(&walk, 0x999, &resolver);
    for f in bt.frames() {
        assert!(f.symbols().is_some());
    }
    let first = &bt.frames()[0];
    let syms = first.symbols().unwrap();
    assert_eq!(syms.len(), 1);
    assert_eq!(syms[0].name().unwrap().as_slice(), b"inner");
    assert_eq!(syms[0].addr(), Some(0x10));
}

#[test]
fn resolve_twice_is_idempotent() {
    let walk = vec![raw(0x11, 0x10), raw(0x21, 0x20)];
    let mut resolver = SymbolResolver::new();
    resolver.add(
        0x21,
        vec![BacktraceSymbol::new(Some(b"outer".to_vec()), None, Some(b"lib.rs".to_vec()), Some(7))],
    );
    let mut bt = Backtrace::new_unresolved(&walk, 0x999);
    bt.resolve(&resolver);
    let first = bt.clone();
    bt.resolve(&resolver);
    let second = bt.clone();
    assert_eq!(first, second);
}

#[test]
fn resolved_frames_never_revert_or_change() {
    let walk = vec![raw(0x11, 0x10)];
    let mut table_a = SymbolResolver::new();
    table_a.add(0x11, vec![BacktraceSymbol::new(Some(b"f".to_vec()), None, None, None)]);
    let mut bt = Backtrace::new_unresolved(&walk, 0x999);
    bt.resolve(&table_a);
    assert!(bt.frames()[0].symbols().is_some());
    // A second resolution with a table that answers differently changes
    // nothing: the frame is already resolved.
    let mut table_b = SymbolResolver::new();
    table_b.add(0x11, vec![BacktraceSymbol::new(Some(b"g".to_vec()), None, None, None)]);
    let before = bt.clone();
    bt.resolve(&table_b);
    assert_eq!(before, bt);
    assert_eq!(
        bt.frames()[0].symbols().unwrap()[0].name().unwrap().as_slice(),
        b"f"
    );
}

#[test]
fn unmatched_address_resolves_to_empty_record_list() {
    let walk = vec![raw(0x11, 0x10)];
    let resolver = SymbolResolver::new();
    let mut bt = Backtrace::new_unresolved(&walk, 0x999);
    bt.resolve(&resolver);
    let syms = bt.frames()[0].symbols().unwrap();
    assert_eq!(syms.len(), 0);
}

#[test]
fn resolver_first_entry_for_an_address_wins() {
    let mut resolver = SymbolResolver::new();
    resolver.add(0x11, vec![BacktraceSymbol::new(Some(b"first".to_vec()), None, None, None)]);
    resolver.add(0x11, vec![BacktraceSymbol::new(Some(b"second".to_vec()), None, None, None)]);
    let found = resolver.lookup(0x11);
    assert_eq!(found.len(), 1);
    assert_eq!(found[0].name().unwrap().as_slice(), b"first");
}

#[test]
fn inlined_functions_yield_one_record_each() {
    let walk = vec![raw(0x11, 0x10)];
    let mut resolver = SymbolResolver::new();
    resolver.add(
        0x11,
        vec![
            BacktraceSymbol::new(Some(b"inlined_inner".to_vec()), None, None, None),
            BacktraceSymbol::new(Some(b"inlined_outer".to_vec()), None, None, None),
        ],
    );
    let mut bt = Backtrace::new_unresolved(&walk, 0x999);
    bt.resolve(&resolver);
    let syms = bt.frames()[0].symbols().unwrap();
    assert_eq!(syms.len(), 2);
    assert_eq!(syms[0].name().unwrap().as_slice(), b"inlined_inner");
    assert_eq!(syms[1].name().unwrap().as_slice(), b"inlined_outer");
}

#[test]
fn symbol_accessors_return_what_was_recorded() {
    let s = BacktraceSymbol::new(
        Some(b"name".to_vec()),
        Some(0x1234),
        Some(b"src/main.rs".to_vec()),
        Some(99),
    );
    assert_eq!(s.name().unwrap().as_slice(), b"name");
    assert_eq!(s.addr(), Some(0x1234));
    assert_eq!(s.filename().unwrap().as_slice(), b"src/main.rs");
    assert_eq!(s.lineno(), Some(99));
    let absent = BacktraceSymbol::new(None, None, None, None);
    assert!(absent.name().is_none());
    assert!(absent.addr().is_none());
    assert!(absent.filename().is_none());
    assert!(absent.lineno().is_none());
}

#[test]
fn backtrace_from_frames_starts_untrimmed() {
    let walk = vec![raw(0x11, 0x10), raw(0x21, 0x20)];
    let bt = Backtrace::new_unresolved(&walk, 0x10);
    assert_eq!(bt.frames().len(), 1);
    let frames = bt.into_frames();
    assert_eq!(frames.len(), 2);
    let rebuilt = Backtrace::from(frames);
    // The trim index is a capture-time artifact; a rebuilt backtrace shows
    // every frame it was given.
    assert_eq!(rebuilt.frames().len(), 2);
}

#[test]
fn duplicate_is_a_deep_equal_copy() {
    let mut resolver = SymbolResolver::new();
    resolver.add(
        0x11,
        vec![BacktraceSymbol::new(Some(b"f".to_vec()), Some(1), Some(b"a.rs".to_vec()), Some(2))],
    );
    let walk = vec![raw(0x11, 0x10)];
    let bt = Backtrace::new(&walk, 0x999, &resolver);
    let frame = &bt.frames()[0];
    let copy = frame.duplicate();
    assert_eq!(copy.ip(), frame.ip());
    assert_eq!(copy.symbol_address(), frame.symbol_address());
    assert_eq!(copy.symbols().unwrap(), frame.symbols().unwrap());
    let sym_copy = frame.symbols().unwrap()[0].duplicate();
    assert_eq!(&sym_copy, &frame.symbols().unwrap()[0]);
}
