use backtrace_capture::Backtrace;
use backtrace_capture::BacktraceSymbol;
use backtrace_capture::RawFrame;
use backtrace_capture::SymbolResolver;

fn raw(ip: u64, symbol_address: u64) -> RawFrame {
    RawFrame { ip, symbol_address }
}

#[test]
fn rendering_an_unresolved_frame_shows_the_placeholder() {
    let walk = vec![raw(0xab, 0xa0)];
    let bt = Backtrace::new_unresolved(&walk, 0x999);
    let out = bt.render(false);
    assert_eq!(out, b"stack backtrace:\n0000: <unresolved> (0xab)".to_vec());
}

#[test]
fn rendering_a_frame_without_symbol_information_shows_no_info() {
    let walk = vec![raw(0xab, 0xa0)];
    let mut bt = Backtrace::new_unresolved(&walk, 0x999);
    bt.resolve(&SymbolResolver::new());
    let out = bt.render(false);
    assert_eq!(out, b"stack backtrace:\n0000: <no info> (0xab)".to_vec());
}

#[test]
fn rendering_a_resolved_frame_shows_name_address_and_location() {
    let walk = vec![raw(0xab, 0xa0)];
    let mut resolver = SymbolResolver::new();
    resolver.add(
        0xab,
        vec![BacktraceSymbol::new(
            Some(b"alpha".to_vec()),
            Some(0xa0),
            Some(b"alpha.rs".to_vec()),
            Some(41),
        )],
    );
    let bt = Backtrace::new(&walk, 0x999, &resolver);
    let out = bt.render(false);
    let expected = b"stack backtrace:\n0000: alpha (0xab)\n             at alpha.rs:41".to_vec();
    assert_eq!(out, expected);
}

#[test]
fn rendering_two_inlined_symbols_prints_the_address_once() {
    let walk = vec![raw(0xab, 0xa0)];
    let mut resolver = SymbolResolver::new();
    resolver.add(
        0xab,
        vec![
            BacktraceSymbol::new(Some(b"inner".to_vec()), None, None, None),
            BacktraceSymbol::new(Some(b"outer".to_vec()), None, None, None),
        ],
    );
    let bt = Backtrace::new(&walk, 0x999, &resolver);
    let out = bt.render(false);
    let expected = b"stack backtrace:\n0000: inner (0xab)\n      outer".to_vec();
    assert_eq!(out, expected);
    // The record list really has length 2.
    assert_eq!(bt.frames()[0].symbols().unwrap().len(), 2);
}

#[test]
fn rendering_a_nameless_symbol_shows_unknown() {
    let walk = vec![raw(0xab, 0xa0)];
    let mut resolver = SymbolResolver::new();
    resolver.add(0xab, vec![BacktraceSymbol::new(None, None, None, None)]);
    let bt = Backtrace::new(&walk, 0x999, &resolver);
    let out = bt.render(false);
    assert_eq!(out, b"stack backtrace:\n0000: <unknown> (0xab)".to_vec());
}

#[test]
fn location_line_needs_both_file_and_line() {
    let walk = vec![raw(0xab, 0xa0)];
    let mut resolver = SymbolResolver::new();
    resolver.add(
        0xab,
        vec![BacktraceSymbol::new(Some(b"f".to_vec()), None, Some(b"only_file.rs".to_vec()), None)],
    );
    let bt = Backtrace::new(&walk, 0x999, &resolver);
    let out = bt.render(false);
    assert_eq!(out, b"stack backtrace:\n0000: f (0xab)".to_vec());
}

#[test]
fn rendering_is_deterministic() {
    let walk = vec![raw(0x11, 0x10), raw(0x21, 0x20), raw(0x31, 0x30)];
    let mut resolver = SymbolResolver::new();
    resolver.add(
        0x21,
        vec![BacktraceSymbol::new(Some(b"mid".to_vec()), Some(0x20), Some(b"m.rs".to_vec()), Some(3))],
    );
    let bt = Backtrace::new(&walk, 0x10, &resolver);
    let first = bt.render(false);
    let second = bt.render(false);
    assert_eq!(first, second);
    let alt_first = bt.render(true);
    let alt_second = bt.render(true);
    assert_eq!(alt_first, alt_second);
}

#[test]
fn normal_mode_hides_trimmed_frames_and_alternate_shows_them() {
    let walk = vec![raw(0x11, 0x10), raw(0x21, 0x20)];
    let mut bt = Backtrace::new_unresolved(&walk, 0x10);
    bt.resolve(&SymbolResolver::new());
    let normal = bt.render(false);
    let alternate = bt.render(true);
    assert_eq!(normal, b"stack backtrace:\n0000: <no info> (0x21)".to_vec());
    assert_eq!(
        alternate,
        b"stack backtrace:\n0000: <no info> (0x11)\n0001: <no info> (0x21)".to_vec()
    );
}

#[test]
fn frame_indices_are_zero_padded_and_count_from_the_trim_point() {
    let mut walk = Vec::new();
    for i in 0..11u64 {
        walk.push(raw(0x1000 + i, 0x2000 + i));
    }
    let bt = Backtrace::new_unresolved(&walk, 0x2000);
    let out = bt.render(false);
    let text = String::from_utf8(out).unwrap();
    assert!(text.contains("\n0000: <unresolved> (0x1001)"));
    assert!(text.contains("\n0009: <unresolved> (0x100a)"));
    assert!(!text.contains("(0x1000)"));
}

#[test]
fn addresses_render_in_lowercase_hexadecimal() {
    let walk = vec![raw(0xdeadbeef, 0x1)];
    let bt = Backtrace::new_unresolved(&walk, 0x999);
    let out = bt.render(false);
    assert_eq!(out, b"stack backtrace:\n0000: <unresolved> (0xdeadbeef)".to_vec());
}

#[test]
fn rendering_an_empty_backtrace_is_just_the_header() {
    let walk: Vec<RawFrame> = Vec::new();
    let bt = Backtrace::new_unresolved(&walk, 0x10);
    assert_eq!(bt.render(false), b"stack backtrace:".to_vec());
}
