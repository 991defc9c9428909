use backtrace_capture::Backtrace;
use backtrace_capture::BacktraceFrame;
use backtrace_capture::BacktraceSymbol;
use backtrace_capture::RawFrame;
use backtrace_capture::SymbolResolver;

fn resolved_frame() -> BacktraceFrame {
    let walk = vec![RawFrame { ip: 0xdead_beef, symbol_address: 0xfeed_f00d }];
    let mut resolver = SymbolResolver::new();
    resolver.add(
        0xdead_beef,
        vec![
            BacktraceSymbol::new(
                Some(b"alpha".to_vec()),
                Some(0x1000),
                Some(b"alpha.rs".to_vec()),
                Some(41),
            ),
            BacktraceSymbol::new(None, None, None, None),
        ],
    );
    let bt = Backtrace::new(&walk, 0x999, &resolver);
    bt.into_frames().remove(0)
}

#[test]
fn round_trip_preserves_addresses_and_symbols() {
    let f = resolved_frame();
    let bytes = f.encode();
    let g = BacktraceFrame::decode(bytes.as_slice()).unwrap();
    assert_eq!(g.ip(), f.ip());
    assert_eq!(g.symbol_address(), f.symbol_address());
    let fs = f.symbols().unwrap();
    let gs = g.symbols().unwrap();
    assert_eq!(gs.len(), fs.len());
    for (a, b) in fs.iter().zip(gs.iter()) {
        assert_eq!(a.name(), b.name());
        assert_eq!(a.addr(), b.addr());
        assert_eq!(a.filename(), b.filename());
        assert_eq!(a.lineno(), b.lineno());
    }
}

#[test]
fn unresolved_state_survives_round_trip() {
    let walk = vec![RawFrame { ip: 0x42, symbol_address: 0x40 }];
    let bt = Backtrace::new_unresolved(&walk, 0x999);
    let f = bt.into_frames().remove(0);
    assert!(f.symbols().is_none());
    let bytes = f.encode();
    let g = BacktraceFrame::decode(bytes.as_slice()).unwrap();
    assert!(g.symbols().is_none());
    // Re-encoding reproduces the exact original bytes.
    let again = g.encode();
    assert_eq!(again, bytes);
}

#[test]
fn resolved_empty_list_survives_round_trip() {
    let walk = vec![RawFrame { ip: 0x42, symbol_address: 0x40 }];
    let mut bt = Backtrace::new_unresolved(&walk, 0x999);
    bt.resolve(&SymbolResolver::new());
    let f = bt.into_frames().remove(0);
    assert_eq!(f.symbols().unwrap().len(), 0);
    let bytes = f.encode();
    let g = BacktraceFrame::decode(bytes.as_slice()).unwrap();
    // `Some` with zero records is distinct from `None` after the trip.
    assert!(g.symbols().is_some());
    assert_eq!(g.symbols().unwrap().len(), 0);
}

#[test]
fn re_encoding_a_decoded_record_is_stable() {
    let f = resolved_frame();
    let bytes = f.encode();
    let g = BacktraceFrame::decode(bytes.as_slice()).unwrap();
    assert_eq!(g.encode(), bytes);
}

#[test]
fn encoding_of_unresolved_frame_is_the_two_addresses_and_a_tag() {
    let walk = vec![RawFrame { ip: 0x01_02_03_04, symbol_address: 0x05 }];
    let bt = Backtrace::new_unresolved(&walk, 0x999);
    let f = bt.into_frames().remove(0);
    let bytes = f.encode();
    let mut expected: Vec<u8> = Vec::new();
    expected.extend_from_slice(&[0x04, 0x03, 0x02, 0x01, 0, 0, 0, 0]);
    expected.extend_from_slice(&[0x05, 0, 0, 0, 0, 0, 0, 0]);
    expected.push(0);
    assert_eq!(bytes, expected);
}

#[test]
fn decoding_truncated_bytes_is_malformed() {
    let f = resolved_frame();
    let bytes = f.encode();
    for cut in 0..bytes.len() {
        let r = BacktraceFrame::decode(&bytes[..cut]);
        assert!(r.is_err());
    }
}

#[test]
fn decoding_trailing_bytes_is_malformed() {
    let f = resolved_frame();
    let mut bytes = f.encode();
    bytes.push(0);
    assert!(BacktraceFrame::decode(bytes.as_slice()).is_err());
}

#[test]
fn decoding_a_bad_tag_is_malformed() {
    let walk = vec![RawFrame { ip: 0x42, symbol_address: 0x40 }];
    let bt = Backtrace::new_unresolved(&walk, 0x999);
    let f = bt.into_frames().remove(0);
    let mut bytes = f.encode();
    let last: usize = bytes.len() - 1;
    bytes[last] = 7; // neither the absent nor the present tag
    assert!(BacktraceFrame::decode(bytes.as_slice()).is_err());
}

#[test]
fn decoding_empty_input_is_malformed() {
    let bytes: Vec<u8> = Vec::new();
    assert!(BacktraceFrame::decode(bytes.as_slice()).is_err());
}

#[test]
fn decoded_frames_render_and_resolve_like_captured_ones() {
    // A reconstructed frame answers the accessors from its stored
    // addresses and carries no link to any live walker state.
    let walk = vec![RawFrame { ip: 0x77, symbol_address: 0x70 }];
    let bt = Backtrace::new_unresolved(&walk, 0x999);
    let f = bt.into_frames().remove(0);
    let g = BacktraceFrame::decode(f.encode().as_slice()).unwrap();
    assert_eq!(g.ip(), 0x77);
    assert_eq!(g.symbol_address(), 0x70);
    // Rebuilt into a backtrace, it can still be resolved by address.
    let mut rebuilt = Backtrace::from(vec![g]);
    let mut resolver = SymbolResolver::new();
    resolver.add(0x77, vec![BacktraceSymbol::new(Some(b"late".to_vec()), None, None, None)]);
    rebuilt.resolve(&resolver);
    let syms = rebuilt.frames()[0].symbols().unwrap();
    assert_eq!(syms[0].name().unwrap().as_slice(), b"late");
}
