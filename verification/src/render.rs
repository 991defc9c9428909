//! The textual renderer: a deterministic multi-line report.
//!
//! The report is produced as raw bytes, since symbol names are preserved
//! verbatim and are not guaranteed to be valid text. It opens with a header
//! line, then shows one entry per visible frame (every frame in alternate
//! mode): a zero-padded index, then either an explicit placeholder for an
//! unresolved frame or one without symbol information, or one line per
//! resolved symbol with the instruction pointer printed only next to the
//! first, and an indented `file:line` line where both are known.

use vstd::prelude::*;
use vstd::string::StringSliceAdditionalSpecFns;

use crate::capture::Backtrace;
use crate::capture::BacktraceView;
use crate::codec::push_slice;
use crate::frame::BacktraceFrame;
use crate::frame::FrameView;
use crate::symbol::BacktraceSymbol;
use crate::symbol::SymbolView;

verus! {

/// The decimal digits of `n`, as ASCII bytes, most significant first.
pub open spec fn dec_digits(n: nat) -> Seq<u8>
    decreases n,
{
    if n < 10 {
        seq![(48 + n) as u8]
    } else {
        dec_digits(n / 10) + seq![(48 + n % 10) as u8]
    }
}

/// One lowercase hexadecimal digit, as an ASCII byte.
pub open spec fn hex_digit(d: nat) -> u8 {
    if d < 10 {
        (48 + d) as u8
    } else {
        (87 + d) as u8
    }
}

/// The lowercase hexadecimal digits of `n`, most significant first.
pub open spec fn hex_digits(n: nat) -> Seq<u8>
    decreases n,
{
    if n < 16 {
        seq![hex_digit(n)]
    } else {
        hex_digits(n / 16) + seq![hex_digit(n % 16)]
    }
}

/// A frame index, zero-padded to at least four digits.
pub open spec fn pad4(n: nat) -> Seq<u8> {
    if n < 10 {
        seq![48u8, 48u8, 48u8] + dec_digits(n)
    } else if n < 100 {
        seq![48u8, 48u8] + dec_digits(n)
    } else if n < 1000 {
        seq![48u8] + dec_digits(n)
    } else {
        dec_digits(n)
    }
}

/// An address, rendered as `0x` plus lowercase hexadecimal digits.
pub open spec fn render_ip(ip: u64) -> Seq<u8> {
    "0x".spec_bytes() + hex_digits(ip as nat)
}

/// A symbol's name line content: its raw name bytes, or a placeholder.
pub open spec fn render_symbol_name(name: Option<Seq<u8>>) -> Seq<u8> {
    match name {
        Some(n) => n,
        None => "<unknown>".spec_bytes(),
    }
}

/// The `file:line` continuation line, shown only when both are known.
pub open spec fn render_location(s: SymbolView) -> Seq<u8> {
    match s.filename {
        Some(f) => match s.lineno {
            Some(l) => "\n             at ".spec_bytes() + f + ":".spec_bytes() + dec_digits(
                l as nat,
            ),
            None => Seq::empty(),
        },
        None => Seq::empty(),
    }
}

/// One symbol's lines within a frame entry: continuation lines are indented
/// to align under the first, and only the first carries the instruction
/// pointer.
pub open spec fn render_symbol(s: SymbolView, first: bool, ip: u64) -> Seq<u8> {
    (if first {
        Seq::<u8>::empty()
    } else {
        "\n      ".spec_bytes()
    }) + render_symbol_name(s.name) + (if first {
        " (".spec_bytes() + render_ip(ip) + ")".spec_bytes()
    } else {
        Seq::<u8>::empty()
    }) + render_location(s)
}

/// The first `i` symbols of a frame entry, in order.
pub open spec fn render_symbols_upto(l: Seq<SymbolView>, ip: u64, i: int) -> Seq<u8>
    decreases i,
{
    if i <= 0 {
        Seq::empty()
    } else {
        render_symbols_upto(l, ip, i - 1) + render_symbol(l[i - 1], i - 1 == 0, ip)
    }
}

/// One frame's whole entry, under display index `idx`.
pub open spec fn render_frame(idx: nat, f: FrameView) -> Seq<u8> {
    "\n".spec_bytes() + pad4(idx) + ": ".spec_bytes() + (match f.symbols {
        None => "<unresolved> (".spec_bytes() + render_ip(f.ip) + ")".spec_bytes(),
        Some(l) => if l.len() == 0 {
            "<no info> (".spec_bytes() + render_ip(f.ip) + ")".spec_bytes()
        } else {
            render_symbols_upto(l, f.ip, l.len() as int)
        },
    })
}

/// The entries of frames `start..i`, display indices counted from `start`.
pub open spec fn render_frames_upto(frames: Seq<FrameView>, start: int, i: int) -> Seq<u8>
    decreases i - start,
{
    if i <= start {
        Seq::empty()
    } else {
        render_frames_upto(frames, start, i - 1) + render_frame(
            (i - 1 - start) as nat,
            frames[i - 1],
        )
    }
}

/// The whole report: the header, then every visible frame (every frame in
/// alternate mode). A pure function of the backtrace value, so rendering
/// the same backtrace twice yields byte-identical output.
pub open spec fn render_view(bt: BacktraceView, alternate: bool) -> Seq<u8> {
    let start = if alternate {
        0
    } else {
        bt.trim_index
    };
    "stack backtrace:".spec_bytes() + render_frames_upto(bt.frames, start, bt.frames.len() as int)
}

/// Appends the bytes of a string literal.
fn push_str_bytes(out: &mut Vec<u8>, s: &str)
    ensures
        final(out)@ == old(out)@ + s.spec_bytes(),
{
    push_slice(out, s.as_bytes());
}

/// Appends a number in decimal.
fn push_dec(out: &mut Vec<u8>, n: u64)
    ensures
        final(out)@ == old(out)@ + dec_digits(n as nat),
    decreases n,
{
    if n < 10 {
        out.push((48 + n) as u8);
        assert(out@ =~= old(out)@ + dec_digits(n as nat));
    } else {
        push_dec(out, n / 10);
        out.push((48 + n % 10) as u8);
        assert(out@ =~= old(out)@ + dec_digits(n as nat));
    }
}

/// Appends a number in lowercase hexadecimal.
fn push_hex(out: &mut Vec<u8>, n: u64)
    ensures
        final(out)@ == old(out)@ + hex_digits(n as nat),
    decreases n,
{
    if n < 16 {
        let d: u8 = if n < 10 {
            (48 + n) as u8
        } else {
            (87 + n) as u8
        };
        out.push(d);
        assert(out@ =~= old(out)@ + hex_digits(n as nat));
    } else {
        push_hex(out, n / 16);
        let m = n % 16;
        let d: u8 = if m < 10 {
            (48 + m) as u8
        } else {
            (87 + m) as u8
        };
        out.push(d);
        assert(out@ =~= old(out)@ + hex_digits(n as nat));
    }
}

/// Appends a frame index, zero-padded to at least four digits.
fn push_pad4(out: &mut Vec<u8>, n: usize)
    ensures
        final(out)@ == old(out)@ + pad4(n as nat),
{
    if n < 10 {
        out.push(48);
        out.push(48);
        out.push(48);
    } else if n < 100 {
        out.push(48);
        out.push(48);
    } else if n < 1000 {
        out.push(48);
    }
    push_dec(out, n as u64);
    assert(out@ =~= old(out)@ + pad4(n as nat));
}

/// Appends an address as `0x` plus hexadecimal digits.
fn push_ip(out: &mut Vec<u8>, ip: u64)
    ensures
        final(out)@ == old(out)@ + render_ip(ip),
{
    push_str_bytes(out, "0x");
    push_hex(out, ip);
    assert(out@ =~= old(out)@ + render_ip(ip));
}

/// Appends one symbol's lines.
#[verifier::rlimit(60)]
fn push_symbol_lines(out: &mut Vec<u8>, s: &BacktraceSymbol, first: bool, ip: u64)
    ensures
        final(out)@ == old(out)@ + render_symbol(s@, first, ip),
{
    if !first {
        push_str_bytes(out, "\n      ");
    }
    let ghost lead = if first {
        Seq::<u8>::empty()
    } else {
        "\n      ".spec_bytes()
    };
    assert(out@ =~= old(out)@ + lead);
    match &s.name {
        Some(n) => push_slice(out, n.as_slice()),
        None => push_str_bytes(out, "<unknown>"),
    }
    if first {
        push_str_bytes(out, " (");
        push_ip(out, ip);
        push_str_bytes(out, ")");
    }
    match &s.filename {
        Some(fname) => match s.lineno {
            Some(ln) => {
                push_str_bytes(out, "\n             at ");
                push_slice(out, fname.as_slice());
                push_str_bytes(out, ":");
                push_dec(out, ln as u64);
            },
            None => {},
        },
        None => {},
    }
    assert(out@ =~= old(out)@ + render_symbol(s@, first, ip));
}

/// Appends one frame's entry.
fn push_frame_entry(out: &mut Vec<u8>, idx: usize, f: &BacktraceFrame)
    ensures
        final(out)@ == old(out)@ + render_frame(idx as nat, f@),
{
    push_str_bytes(out, "\n");
    push_pad4(out, idx);
    push_str_bytes(out, ": ");
    let ip = f.frame.ip();
    match &f.symbols {
        None => {
            push_str_bytes(out, "<unresolved> (");
            push_ip(out, ip);
            push_str_bytes(out, ")");
        },
        Some(l) => {
            if l.len() == 0 {
                push_str_bytes(out, "<no info> (");
                push_ip(out, ip);
                push_str_bytes(out, ")");
            } else {
                let ghost lv = l@.map_values(|s: BacktraceSymbol| s@);
                let ghost pre = out@;
                let mut j: usize = 0;
                while j < l.len()
                    invariant
                        j <= l.len(),
                        lv == l@.map_values(|s: BacktraceSymbol| s@),
                        out@ == pre + render_symbols_upto(lv, ip, j as int),
                    decreases l.len() - j,
                {
                    push_symbol_lines(out, &l[j], j == 0, ip);
                    assert(out@ =~= pre + render_symbols_upto(lv, ip, j + 1));
                    j = j + 1;
                }
            }
        },
    }
    assert(out@ =~= old(out)@ + render_frame(idx as nat, f@));
}

impl Backtrace {
    /// Renders the report. In normal mode only the visible frames appear;
    /// in alternate mode every captured frame does, for diagnostic
    /// completeness. The output is a pure function of the backtrace value:
    /// rendering the same backtrace twice yields byte-identical output.
    pub fn render(&self, alternate: bool) -> (r: Vec<u8>)
        requires
            self.wf(),
        ensures
            r@ == render_view(self@, alternate),
    {
        let mut out: Vec<u8> = Vec::new();
        push_str_bytes(&mut out, "stack backtrace:");
        let start: usize = if alternate {
            0
        } else {
            self.actual_start_index
        };
        let ghost header = "stack backtrace:".spec_bytes();
        let mut i: usize = start;
        assert(out@ =~= header + render_frames_upto(self@.frames, start as int, start as int));
        while i < self.frames.len()
            invariant
                start <= i <= self.frames@.len(),
                out@ == header + render_frames_upto(self@.frames, start as int, i as int),
            decreases self.frames@.len() - i,
        {
            push_frame_entry(&mut out, i - start, &self.frames[i]);
            assert(out@ =~= header + render_frames_upto(self@.frames, start as int, i + 1));
            i = i + 1;
        }
        out
    }
}

} // verus!
