//! The backtrace snapshot: capture, trimming, lazy resolution.

use vstd::prelude::*;
use vstd::slice::slice_subrange;

use crate::frame::BacktraceFrame;
use crate::frame::Frame;
use crate::frame::FrameView;
use crate::frame::RawFrame;
use crate::resolve::ResolverEntryView;
use crate::resolve::SymbolResolver;
use crate::resolve::resolve_frame_view;

verus! {

/// Ghost model of a backtrace: the captured frames in stack order
/// (innermost first) and the trim index marking where caller-relevant
/// frames begin.
#[verifier::ext_equal]
pub struct BacktraceView {
    pub frames: Seq<FrameView>,
    pub trim_index: int,
}

/// An owned, self-contained backtrace: an ordered sequence of captured
/// frames plus the computed trim index. Frames before the trim index belong
/// to the capture machinery itself and are hidden from normal consumers.
#[derive(Clone, Debug, PartialEq, Eq)]
pub struct Backtrace {
    pub(crate) frames: Vec<BacktraceFrame>,
    pub(crate) actual_start_index: usize,
}

impl View for Backtrace {
    type V = BacktraceView;

    open(crate) spec fn view(&self) -> BacktraceView {
        BacktraceView {
            frames: self.frames@.map_values(|f: BacktraceFrame| f@),
            trim_index: self.actual_start_index as int,
        }
    }
}

/// The frame a walker token is wrapped into at capture time: the token's two
/// addresses, with no symbols recorded yet.
pub open spec fn unresolved_frame_view(rf: RawFrame) -> FrameView {
    FrameView { ip: rf.ip, symbol_address: rf.symbol_address, symbols: None }
}

/// The trim index a walked frame list yields for a capture marker address:
/// one past the first frame whose symbol-table address equals the marker,
/// and 0 (nothing trimmed) when no frame matches.
pub open spec fn trim_of(raw: Seq<RawFrame>, marker: u64) -> int
    decreases raw.len(),
{
    if raw.len() == 0 {
        0
    } else if raw[0].symbol_address == marker {
        1
    } else if trim_of(raw.drop_first(), marker) == 0 {
        0
    } else {
        trim_of(raw.drop_first(), marker) + 1
    }
}

/// The snapshot one capture call builds from the walker's frame list: every
/// token wrapped unresolved, in walk order, with the trim index computed
/// from the marker address.
pub open spec fn capture_view(raw: Seq<RawFrame>, marker: u64) -> BacktraceView {
    BacktraceView {
        frames: raw.map_values(|rf: RawFrame| unresolved_frame_view(rf)),
        trim_index: trim_of(raw, marker),
    }
}

/// Resolution of a whole backtrace: every unresolved frame receives the
/// records its address resolves to; resolved frames and the trim index are
/// untouched.
pub open spec fn resolve_view(bt: BacktraceView, entries: Seq<ResolverEntryView>) -> BacktraceView {
    BacktraceView {
        frames: bt.frames.map_values(|f: FrameView| resolve_frame_view(f, entries)),
        trim_index: bt.trim_index,
    }
}

/// For every capture, the trim index never exceeds the frame count.
pub proof fn lemma_trim_of_bounds(raw: Seq<RawFrame>, marker: u64)
    ensures
        0 <= trim_of(raw, marker) <= raw.len(),
        0 <= capture_view(raw, marker).trim_index <= capture_view(raw, marker).frames.len(),
    decreases raw.len(),
{
    if raw.len() == 0 {
    } else if raw[0].symbol_address == marker {
    } else {
        lemma_trim_of_bounds(raw.drop_first(), marker);
    }
}

/// When no walked frame carries the marker address, nothing is trimmed: the
/// permissive fallback for a capture routine that was inlined away.
pub proof fn lemma_trim_of_no_match(raw: Seq<RawFrame>, marker: u64)
    requires
        forall|j: int| 0 <= j < raw.len() ==> raw[j].symbol_address != marker,
    ensures
        trim_of(raw, marker) == 0,
    decreases raw.len(),
{
    if raw.len() == 0 {
    } else {
        let rest = raw.drop_first();
        assert(forall|j: int| 0 <= j < rest.len() ==> rest[j] == raw[j + 1]);
        lemma_trim_of_no_match(rest, marker);
    }
}

/// The visible frame range never includes the capture entry routine's own
/// frame: the first frame whose symbol-table address equals the capture
/// marker lies strictly below the trim index, so the range that starts at
/// the trim index excludes it.
pub proof fn lemma_capture_routine_frame_trimmed(raw: Seq<RawFrame>, marker: u64, k: int)
    requires
        0 <= k < raw.len(),
        raw[k].symbol_address == marker,
        forall|j: int| 0 <= j < k ==> raw[j].symbol_address != marker,
    ensures
        trim_of(raw, marker) == k + 1,
        k < trim_of(raw, marker),
    decreases raw.len(),
{
    if k == 0 {
    } else {
        let rest = raw.drop_first();
        assert(forall|j: int| 0 <= j < rest.len() ==> rest[j] == raw[j + 1]);
        lemma_capture_routine_frame_trimmed(rest, marker, k - 1);
    }
}

/// Resolving an already-resolved backtrace changes nothing, whatever the
/// resolver answers the second time: resolution is idempotent.
pub proof fn lemma_resolve_idempotent(
    bt: BacktraceView,
    e1: Seq<ResolverEntryView>,
    e2: Seq<ResolverEntryView>,
)
    ensures
        resolve_view(resolve_view(bt, e1), e2) == resolve_view(bt, e1),
{
    let once = resolve_view(bt, e1);
    let twice = resolve_view(once, e2);
    assert forall|i: int| 0 <= i < once.frames.len() implies twice.frames[i] == once.frames[i] by {
        assert(once.frames[i] == resolve_frame_view(bt.frames[i], e1));
    }
    assert(twice.frames =~= once.frames);
    assert(twice =~= once);
}

/// Once a frame is resolved its record list is `Some(_)` and never reverts:
/// resolution fills every unresolved frame and leaves resolved frames
/// exactly as they were.
pub proof fn lemma_resolution_is_permanent(bt: BacktraceView, entries: Seq<ResolverEntryView>)
    ensures
        forall|i: int|
            0 <= i < bt.frames.len() ==> (#[trigger] resolve_view(bt, entries).frames[i]).symbols
                is Some,
        forall|i: int|
            0 <= i < bt.frames.len() && bt.frames[i].symbols is Some ==> resolve_view(
                bt,
                entries,
            ).frames[i] == bt.frames[i],
{
}

impl Backtrace {
    /// The backtrace invariant: the trim index never exceeds the frame
    /// count.
    pub open spec fn wf(&self) -> bool {
        0 <= self@.trim_index <= self@.frames.len()
    }

    /// Builds a fully resolved backtrace from one walk of the stack.
    ///
    /// `raw` is the walker's frame list, innermost first; `marker` is the
    /// address of the capture entry routine, used only to find the trim
    /// boundary; `resolver` supplies the external resolver's answers.
    /// Capture never fails: an empty or truncated walk yields a backtrace
    /// with fewer frames rather than an error.
    pub fn new(raw: &Vec<RawFrame>, marker: u64, resolver: &SymbolResolver) -> (bt: Backtrace)
        ensures
            bt.wf(),
            bt@ == resolve_view(capture_view(raw@, marker), resolver@),
    {
        let mut bt = Self::create(raw, marker);
        bt.resolve(resolver);
        bt
    }

    /// Builds an address-only backtrace from one walk of the stack: every
    /// frame is left unresolved, so that the expensive resolution step can
    /// be deferred or skipped.
    pub fn new_unresolved(raw: &Vec<RawFrame>, marker: u64) -> (bt: Backtrace)
        ensures
            bt.wf(),
            bt@ == capture_view(raw@, marker),
    {
        Self::create(raw, marker)
    }

    /// One capture pass: wraps every walker token as an unresolved frame, in
    /// walk order, and records the trim index, one past the first frame
    /// whose symbol-table address equals `marker` (0 when none matches).
    pub fn create(raw: &Vec<RawFrame>, marker: u64) -> (bt: Backtrace)
        ensures
            bt.wf(),
            bt@ == capture_view(raw@, marker),
    {
        let mut frames: Vec<BacktraceFrame> = Vec::new();
        let mut found_start: Option<usize> = None;
        let mut i: usize = 0;
        while i < raw.len()
            invariant
                i <= raw.len(),
                frames@.len() == i as int,
                forall|j: int| 0 <= j < i ==> frames@[j]@ == unresolved_frame_view(raw@[j]),
                match found_start {
                    None => forall|j: int| 0 <= j < i ==> raw@[j].symbol_address != marker,
                    Some(k) => 1 <= k <= i && raw@[k - 1].symbol_address == marker && (forall|
                        j: int,
                    |
                        0 <= j < k - 1 ==> raw@[j].symbol_address != marker),
                },
            decreases raw.len() - i,
        {
            let rf = raw[i];
            frames.push(BacktraceFrame { frame: Frame::Raw(rf), symbols: None });
            if rf.symbol_address == marker && found_start.is_none() {
                found_start = Some(frames.len());
            }
            i = i + 1;
        }
        let start: usize = match found_start {
            Some(k) => {
                proof {
                    lemma_capture_routine_frame_trimmed(raw@, marker, k - 1 as int);
                }
                k
            },
            None => {
                proof {
                    lemma_trim_of_no_match(raw@, marker);
                }
                0
            },
        };
        let bt = Backtrace { frames, actual_start_index: start };
        assert(bt@.frames =~= capture_view(raw@, marker).frames);
        assert(bt@ =~= capture_view(raw@, marker));
        bt
    }

    /// The visible frames: the captured frames from the trim index on, with
    /// the capture machinery's own frames hidden.
    pub fn frames(&self) -> (r: &[BacktraceFrame])
        requires
            self.wf(),
        ensures
            r@.len() == self@.frames.len() - self@.trim_index,
            forall|i: int| 0 <= i < r@.len() ==> r@[i]@ == self@.frames[self@.trim_index + i],
    {
        slice_subrange(self.frames.as_slice(), self.actual_start_index, self.frames.len())
    }

    /// Resolves every frame that is still unresolved against the resolver's
    /// answers; already-resolved frames and the trim index are untouched.
    /// Calling this again, with any resolver, is a no-op.
    pub fn resolve(&mut self, resolver: &SymbolResolver)
        requires
            old(self).wf(),
        ensures
            final(self).wf(),
            final(self)@ == resolve_view(old(self)@, resolver@),
    {
        let ghost orig = self@;
        let n: usize = self.frames.len();
        let mut i: usize = 0;
        while i < n
            invariant
                i <= n,
                n as int == orig.frames.len(),
                self.actual_start_index as int == orig.trim_index,
                self.frames@.len() == n as int,
                forall|j: int|
                    0 <= j < i ==> self.frames@[j]@ == resolve_frame_view(
                        orig.frames[j],
                        resolver@,
                    ),
                forall|j: int| i <= j < n ==> self.frames@[j]@ == orig.frames[j],
            decreases n - i,
        {
            if self.frames[i].symbols.is_none() {
                let addr = self.frames[i].frame.ip();
                let syms = resolver.lookup(addr);
                let handle = self.frames[i].frame;
                self.frames[i] = BacktraceFrame { frame: handle, symbols: Some(syms) };
                assert(self.frames@[i as int]@ =~= resolve_frame_view(
                    orig.frames[i as int],
                    resolver@,
                ));
            } else {
                assert(self.frames@[i as int]@ == resolve_frame_view(
                    orig.frames[i as int],
                    resolver@,
                ));
            }
            i = i + 1;
        }
        assert(self@.frames =~= resolve_view(orig, resolver@).frames);
        assert(self@ =~= resolve_view(orig, resolver@));
    }

    /// Gives the captured frames up, consuming the backtrace.
    pub fn into_frames(self) -> (r: Vec<BacktraceFrame>)
        ensures
            r@.map_values(|f: BacktraceFrame| f@) == self@.frames,
    {
        self.frames
    }
}

impl Default for Backtrace {
    /// The degenerate capture: an empty walk, nothing trimmed.
    fn default() -> (bt: Backtrace)
        ensures
            bt.wf(),
            bt@.frames.len() == 0,
            bt@.trim_index == 0,
    {
        Backtrace { frames: Vec::new(), actual_start_index: 0 }
    }
}

impl From<Vec<BacktraceFrame>> for Backtrace {
    /// Rebuilds a backtrace around an externally assembled frame list; the
    /// trim index is a capture-time artifact and defaults to 0 here.
    fn from(frames: Vec<BacktraceFrame>) -> (bt: Backtrace) {
        let bt = Backtrace { frames, actual_start_index: 0 };
        assert(bt.wf());
        bt
    }
}

impl vstd::std_specs::convert::FromSpecImpl<Vec<BacktraceFrame>> for Backtrace {
    open spec fn obeys_from_spec() -> bool {
        true
    }

    open(crate) spec fn from_spec(frames: Vec<BacktraceFrame>) -> Backtrace {
        Backtrace { frames, actual_start_index: 0 }
    }
}

} // verus!
