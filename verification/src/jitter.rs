//! The buffer between the network and the speaker: it puts frames back in order, drops those that
//! come too late, and hands out one frame per tick whatever has arrived.
use crate::header::Header;
use crate::sequence::{seq_gt, seq_lt};
use std::collections::{BTreeMap, VecDeque};
use vstd::prelude::*;

verus! {

/// The depth that a buffer starts with.
pub const MIN_JITTER_DEPTH: usize = 3;

/// The depth that a buffer never exceeds.
pub const MAX_JITTER_DEPTH: usize = 5;

/// How many frames may wait at once: two more than the largest depth.
pub const WINDOW_LIMIT: usize = MAX_JITTER_DEPTH + 2;

/// How many late arrivals are remembered.
pub const LATE_LIMIT: usize = 256;

/// How many late arrivals make the buffer grow deeper.
pub const LATE_BURST: usize = 50;

/// The length of a silent frame before any frame was played.
pub const DEFAULT_FRAME: usize = 320;

/// What a buffer has counted so far.
#[derive(Clone, Copy, Debug, PartialEq, Eq, Structural)]
pub struct Stats {
    /// Frames that arrived.
    pub received: u64,
    /// Frames that were handed out, concealed ones included.
    pub played: u64,
    /// Frames that arrived after their turn.
    pub dropped_late: u64,
    /// Frames that arrived with a gap before them.
    pub reordered: u64,
    /// Frames that were made up for want of a real one.
    pub plc_frames: u64,
}

impl Default for Stats {
    fn default() -> (s: Self)
        ensures
            s == (Stats { received: 0, played: 0, dropped_late: 0, reordered: 0, plc_frames: 0 }),
    {
        Stats { received: 0, played: 0, dropped_late: 0, reordered: 0, plc_frames: 0 }
    }
}

/// When a frame that was played had been sent.
#[derive(Clone, Copy, Debug, PartialEq, Eq, Structural)]
pub struct FrameTiming {
    /// The sender's time stamp.
    pub ts_ms: u64,
    /// Whether nothing had been handed out before it.
    pub first: bool,
}

/// What one tick hands out.
#[derive(Debug)]
pub struct Playout {
    pub frame: Vec<i16>,
    /// The timing of a frame that came from the network; `None` for a frame that was made up.
    pub timing: Option<FrameTiming>,
}

/// A frame of `len` zero samples.
pub open spec fn silence(len: nat) -> Seq<i16> {
    Seq::new(len, |i: int| 0i16)
}

/// The state of a jitter buffer.
pub struct JitterState {
    /// The frames that wait, by sequence number.
    pub window: Map<u32, (Header, Seq<i16>)>,
    /// The number whose turn is next.
    pub next_seq: u32,
    /// How many frames must wait before the first one is played.
    pub target_depth: nat,
    /// The frame from the network that was played last; empty before the first.
    pub last_frame: Seq<i16>,
    /// The late arrivals that are remembered, oldest first.
    pub late: Seq<u32>,
    pub stats: Stats,
}

impl JitterState {
    /// An empty buffer that waits for `initial_seq`.
    pub open spec fn initial(initial_seq: u32) -> JitterState {
        JitterState {
            window: Map::empty(),
            next_seq: initial_seq,
            target_depth: MIN_JITTER_DEPTH as nat,
            last_frame: seq![],
            late: seq![],
            stats: Stats { received: 0, played: 0, dropped_late: 0, reordered: 0, plc_frames: 0 },
        }
    }

    /// What holds of every buffer.
    pub open spec fn wf(self) -> bool {
        &&& self.window.dom().finite()
        &&& self.window.len() <= WINDOW_LIMIT
        &&& forall|k: u32| #[trigger] self.window.contains_key(k) ==> self.window[k].0.seq == k
        &&& MIN_JITTER_DEPTH <= self.target_depth <= MAX_JITTER_DEPTH
        &&& self.late.len() <= LATE_LIMIT
        &&& self.stats.dropped_late + self.stats.reordered <= self.stats.received
        &&& self.stats.plc_frames <= self.stats.played
        &&& self.window.len() + self.hits() + self.stats.dropped_late <= self.stats.received
        &&& self.stats.played == 0 ==> self.last_frame.len() == 0
    }

    /// How many frames from the network were played.
    pub open spec fn hits(self) -> int {
        self.stats.played - self.stats.plc_frames
    }

    /// Whether `k` is the largest number in the window, by value.
    pub open spec fn is_highest(self, k: u32) -> bool {
        &&& self.window.contains_key(k)
        &&& forall|j: u32| #[trigger] self.window.contains_key(j) ==> j <= k
    }

    /// The largest number in the window, by value.
    pub open spec fn highest(self) -> u32 {
        choose|k: u32| self.is_highest(k)
    }

    /// Whether a frame with this number comes too late to be played.
    pub open spec fn is_late(self, seq: u32) -> bool {
        crate::sequence::precedes(seq, self.next_seq)
    }

    /// Whether a frame with this number lies beyond the one that would continue the window.
    pub open spec fn leaps(self, seq: u32) -> bool {
        &&& self.window.len() > 0
        &&& crate::sequence::precedes(crate::sequence::seq_next(self.highest()), seq)
    }

    /// The window with room for one more frame: where it is full, the highest leaves.
    pub open spec fn roomy_window(self) -> Map<u32, (Header, Seq<i16>)> {
        if self.window.len() >= WINDOW_LIMIT {
            self.window.remove(self.highest())
        } else {
            self.window
        }
    }

    /// The buffer after the frame `pcm` with header `h` arrived.
    pub open spec fn pushed(self, h: Header, pcm: Seq<i16>) -> JitterState {
        if self.is_late(h.seq) {
            let late = self.late.push(h.seq);
            JitterState {
                late: if late.len() > LATE_LIMIT {
                    late.drop_first()
                } else {
                    late
                },
                stats: Stats {
                    received: (self.stats.received + 1) as u64,
                    dropped_late: (self.stats.dropped_late + 1) as u64,
                    ..self.stats
                },
                ..self
            }
        } else {
            JitterState {
                window: self.roomy_window().insert(h.seq, (h, pcm)),
                stats: Stats {
                    received: (self.stats.received + 1) as u64,
                    reordered: if self.leaps(h.seq) {
                        (self.stats.reordered + 1) as u64
                    } else {
                        self.stats.reordered
                    },
                    ..self.stats
                },
                ..self
            }
        }
    }

    /// The buffer after a burst of late arrivals was taken into account.
    pub open spec fn adjusted(self) -> JitterState {
        if self.late.len() >= LATE_BURST {
            JitterState {
                target_depth: if self.target_depth < MAX_JITTER_DEPTH {
                    self.target_depth + 1
                } else {
                    self.target_depth
                },
                late: seq![],
                ..self
            }
        } else {
            self
        }
    }

    /// Whether the first tick finds too few frames to start playing.
    pub open spec fn is_filling(self) -> bool {
        self.stats.played == 0 && self.window.len() < self.adjusted().target_depth
    }

    /// Whether the next tick plays a frame from the network.
    pub open spec fn is_hit(self) -> bool {
        !self.is_filling() && self.window.contains_key(self.next_seq)
    }

    /// The frame that the next tick hands out: the one whose turn it is, else the last one again,
    /// else silence.
    pub open spec fn next_frame(self) -> Seq<i16> {
        if self.is_hit() {
            self.window[self.next_seq].1
        } else if self.last_frame.len() > 0 {
            self.last_frame
        } else {
            silence(DEFAULT_FRAME as nat)
        }
    }

    /// The timing of the frame that the next tick hands out.
    pub open spec fn next_timing(self) -> Option<FrameTiming> {
        if self.is_hit() {
            Some(
                FrameTiming {
                    ts_ms: self.window[self.next_seq].0.ts_ms,
                    first: self.stats.played == 0,
                },
            )
        } else {
            None
        }
    }

    /// Whether no frame that waits is past its turn.
    pub open spec fn is_fresh(self) -> bool {
        forall|k: u32| #[trigger] self.window.contains_key(k) ==> !self.is_late(k)
    }

    /// Whether the next `n` numbers all wait in the window.
    pub open spec fn holds_run(self, n: nat) -> bool {
        forall|i: int|
            0 <= i < n ==> self.window.contains_key(
                #[trigger] crate::sequence::seq_ahead(self.next_seq, i),
            )
    }

    /// The buffer after `n` ticks.
    pub open spec fn popped_times(self, n: nat) -> JitterState
        decreases n,
    {
        if n == 0 {
            self
        } else {
            self.popped_times((n - 1) as nat).popped()
        }
    }

    /// The buffer after a tick.
    pub open spec fn popped(self) -> JitterState {
        JitterState {
            window: if self.is_hit() {
                self.window.remove(self.next_seq)
            } else {
                self.window
            },
            next_seq: crate::sequence::seq_next(self.next_seq),
            last_frame: if self.is_hit() {
                self.window[self.next_seq].1
            } else {
                self.last_frame
            },
            stats: Stats {
                played: (self.stats.played + 1) as u64,
                plc_frames: if self.is_hit() {
                    self.stats.plc_frames
                } else {
                    (self.stats.plc_frames + 1) as u64
                },
                ..self.stats
            },
            ..self.adjusted()
        }
    }
}

/// Every window that holds a frame has exactly one highest number.
pub proof fn lemma_highest(s: JitterState)
    requires
        s.window.dom().finite(),
        s.window.len() > 0,
    ensures
        s.is_highest(s.highest()),
        forall|k: u32| s.is_highest(k) ==> k == s.highest(),
{
    lemma_max_exists(s.window.dom());
    let k = choose|k: u32|
        s.window.dom().contains(k) && forall|j: u32| #[trigger] s.window.dom().contains(j)
            ==> j <= k;
    assert(s.is_highest(k));
}

proof fn lemma_max_exists(keys: Set<u32>)
    requires
        keys.finite(),
        keys.len() > 0,
    ensures
        exists|k: u32|
            keys.contains(k) && forall|j: u32| #[trigger] keys.contains(j) ==> j <= k,
    decreases keys.len(),
{
    let a = keys.choose();
    let rest = keys.remove(a);
    if rest.len() == 0 {
        assert forall|j: u32| #[trigger] keys.contains(j) implies j <= a by {
            if j != a {
                assert(rest.contains(j));
            }
        }
    } else {
        lemma_max_exists(rest);
        let b = choose|k: u32|
            rest.contains(k) && forall|j: u32| #[trigger] rest.contains(j) ==> j <= k;
        let top = if a < b { b } else { a };
        assert forall|j: u32| #[trigger] keys.contains(j) implies j <= top by {
            if j != a {
                assert(rest.contains(j));
            }
        }
        assert(keys.contains(top));
    }
}

/// A jitter buffer.
pub struct JitterBuffer {
    window: BTreeMap<u32, (Header, Vec<i16>)>,
    next_seq: u32,
    target_depth: usize,
    last_frame: Vec<i16>,
    late_queue: VecDeque<u32>,
    stats: Stats,
}

impl View for JitterBuffer {
    type V = JitterState;

    closed spec fn view(&self) -> JitterState {
        JitterState {
            window: self.window@.map_values(|e: (Header, Vec<i16>)| (e.0, e.1@)),
            next_seq: self.next_seq,
            target_depth: self.target_depth as nat,
            last_frame: self.last_frame@,
            late: self.late_queue@,
            stats: self.stats,
        }
    }
}

/// The largest key of a window.
fn highest_key(window: &BTreeMap<u32, (Header, Vec<i16>)>) -> (r: Option<u32>)
    ensures
        r is None <==> window@.len() == 0,
        r matches Some(k) ==> window@.contains_key(k) && forall|j: u32| #[trigger]
            window@.contains_key(j) ==> j <= k,
{
    broadcast use vstd::std_specs::btree::group_btree_axioms;

    let mut best: Option<u32> = None;
    for key in it: window.keys()
        invariant
            best is None <==> it.index() == 0,
            best matches Some(b) ==> window@.contains_key(b) && forall|i: int|
                0 <= i < it.index() ==> *(#[trigger] it.seq()[i]) <= b,
            it.seq().unref().to_set() == window@.dom(),
            it.seq().len() == window@.len(),
    {
        assert(window@.dom().contains(*key)) by {
            assert(it.seq().unref()[it.index() as int] == *key);
            assert(it.seq().unref().to_set().contains(*key));
        }
        best = match best {
            Some(b) if b >= *key => Some(b),
            _ => Some(*key),
        };
    }
    best
}

impl JitterBuffer {
    /// What holds of every buffer that this module hands out.
    pub open spec fn wf(&self) -> bool {
        self@.wf()
    }

    /// An empty buffer that waits for the frame `initial_seq`.
    pub fn new(initial_seq: u32) -> (b: Self)
        ensures
            b.wf(),
            b@ == JitterState::initial(initial_seq),
    {
        let b = JitterBuffer {
            window: BTreeMap::new(),
            next_seq: initial_seq,
            target_depth: MIN_JITTER_DEPTH,
            last_frame: Vec::new(),
            late_queue: VecDeque::with_capacity(128),
            stats: Stats::default(),
        };
        assert(b@.window =~= Map::empty());
        assert(b@.last_frame =~= seq![]);
        assert(b@.late =~= seq![]);
        b
    }

    /// Takes in a frame that arrived. A frame whose turn is over is counted and forgotten; where
    /// the window is full, the frame with the highest number makes room.
    pub fn push(&mut self, h: Header, pcm: Vec<i16>)
        requires
            old(self).wf(),
            old(self)@.stats.received < u64::MAX,
        ensures
            final(self).wf(),
            final(self)@ == old(self)@.pushed(h, pcm@),
    {
        let ghost before = self@;
        self.stats.received += 1;

        if seq_lt(h.seq, self.next_seq) {
            self.stats.dropped_late += 1;
            self.late_queue.push_back(h.seq);
            if self.late_queue.len() > LATE_LIMIT {
                self.late_queue.pop_front();
            }
            assert(self@.late =~= before.pushed(h, pcm@).late);
            return;
        }
        let highest = highest_key(&self.window);
        proof {
            lemma_window_view(self.window@);
            if before.window.len() > 0 {
                lemma_highest(before);
                assert(before.is_highest(highest->0));
            }
        }
        if let Some(max_seq) = highest {
            if seq_gt(h.seq, max_seq.wrapping_add(1)) {
                self.stats.reordered += 1;
            }
        }
        if self.window.len() >= WINDOW_LIMIT {
            if let Some(k) = highest {
                self.window.remove(&k);
            }
        }
        self.window.insert(h.seq, (h, pcm));
        proof {
            assert(self@.window =~= before.pushed(h, pcm@).window);
            law_push_keeps_wf(before, h, pcm@);
        }
    }

    /// One tick of playout: hands out the frame whose turn it is, or makes one up, and moves on to
    /// the next number.
    pub fn pop_for_playout(&mut self) -> (r: Playout)
        requires
            old(self).wf(),
            old(self)@.stats.played < u64::MAX,
        ensures
            final(self).wf(),
            final(self)@ == old(self)@.popped(),
            r.frame@ == old(self)@.next_frame(),
            r.timing == old(self)@.next_timing(),
    {
        let ghost before = self@;
        self.adjust_depth();
        proof {
            lemma_window_view(self.window@);
            law_pop_keeps_wf(before);
        }

        if self.window.len() < self.target_depth && self.stats.played == 0 {
            let zeros = self.zero_frame_or_cached();
            self.stats.plc_frames += 1;
            self.stats.played += 1;
            self.next_seq = self.next_seq.wrapping_add(1);
            return Playout { frame: zeros, timing: None };
        }
        match self.window.remove(&self.next_seq) {
            Some((h, frame)) => {
                let timing = FrameTiming { ts_ms: h.ts_ms, first: self.stats.played == 0 };
                self.last_frame = frame.clone();
                assert(self.last_frame@ =~= frame@);
                self.stats.played += 1;
                self.next_seq = self.next_seq.wrapping_add(1);
                assert(self@.window =~= before.popped().window);
                Playout { frame, timing: Some(timing) }
            },
            None => {
                let plc = if self.last_frame.is_empty() {
                    self.zero_frame_or_cached()
                } else {
                    self.last_frame.clone()
                };
                assert(plc@ =~= before.next_frame());
                self.stats.plc_frames += 1;
                self.stats.played += 1;
                self.next_seq = self.next_seq.wrapping_add(1);
                assert(self@.window =~= before.popped().window);
                Playout { frame: plc, timing: None }
            },
        }
    }

    /// The counters so far.
    pub fn stats(&self) -> (s: Stats)
        ensures
            s == self@.stats,
    {
        self.stats
    }

    /// A silent frame as long as the last one that was played.
    fn zero_frame_or_cached(&self) -> (frame: Vec<i16>)
        ensures
            frame@ == silence(
                if self@.last_frame.len() > 0 {
                    self@.last_frame.len()
                } else {
                    DEFAULT_FRAME as nat
                },
            ),
    {
        let len = if !self.last_frame.is_empty() {
            self.last_frame.len()
        } else {
            DEFAULT_FRAME
        };
        let frame = vec![0i16; len];
        assert(frame@ =~= silence(len as nat));
        frame
    }

    /// Deepens the buffer by one after a burst of late arrivals, up to the largest depth.
    fn adjust_depth(&mut self)
        requires
            old(self).wf(),
        ensures
            final(self)@ == old(self)@.adjusted(),
            final(self).window == old(self).window,
    {
        let ghost before = self@;
        if self.late_queue.len() >= LATE_BURST {
            let late = self.late_queue.len();
            self.late_queue.clear();
            if late > 5 && self.target_depth < MAX_JITTER_DEPTH {
                self.target_depth += 1;
            } else if late == 0 && self.target_depth > MIN_JITTER_DEPTH {
                self.target_depth -= 1;
            }
            assert(self@.late =~= before.adjusted().late);
        }
    }
}

/// The window of the model has the keys of the map that holds it.
proof fn lemma_window_view(m: Map<u32, (Header, Vec<i16>)>)
    requires
        m.dom().finite(),
    ensures
        m.map_values(|e: (Header, Vec<i16>)| (e.0, e.1@)).dom() == m.dom(),
        m.map_values(|e: (Header, Vec<i16>)| (e.0, e.1@)).len() == m.len(),
{
    assert(m.map_values(|e: (Header, Vec<i16>)| (e.0, e.1@)).dom() =~= m.dom());
}

/// Taking in a frame keeps what holds of every buffer: no more than the limit waits, each frame
/// under its own number, and the counters add up.
pub proof fn law_push_keeps_wf(s: JitterState, h: Header, pcm: Seq<i16>)
    requires
        s.wf(),
        s.stats.received < u64::MAX,
    ensures
        s.pushed(h, pcm).wf(),
{
    if !s.is_late(h.seq) && s.window.len() > 0 {
        lemma_highest(s);
    }
}

/// A tick keeps what holds of every buffer.
pub proof fn law_pop_keeps_wf(s: JitterState)
    requires
        s.wf(),
        s.stats.played < u64::MAX,
    ensures
        s.popped().wf(),
{
}

/// A frame that comes too late changes nothing that is played: the window, the turn and the frame
/// that the next tick hands out stay as they were, unless the arrival completes a burst before
/// playing has started.
pub proof fn law_late_frame_is_dropped(s: JitterState, h: Header, pcm: Seq<i16>)
    requires
        s.is_late(h.seq),
    ensures
        s.pushed(h, pcm).window == s.window,
        s.pushed(h, pcm).next_seq == s.next_seq,
        s.pushed(h, pcm).last_frame == s.last_frame,
        s.stats.played > 0 ==> s.pushed(h, pcm).next_frame() == s.next_frame(),
        s.stats.played > 0 ==> s.pushed(h, pcm).next_timing() == s.next_timing(),
{
}

/// A frame that is in time waits under its number, and the tick whose turn it is plays it: what
/// comes out is what was put in.
pub proof fn law_push_then_pop(s: JitterState, h: Header, pcm: Seq<i16>)
    requires
        !s.is_late(h.seq),
    ensures
        s.pushed(h, pcm).window.contains_key(h.seq),
        s.pushed(h, pcm).window[h.seq] == (h, pcm),
        h.seq == s.next_seq && !s.pushed(h, pcm).is_filling() ==> {
            &&& s.pushed(h, pcm).next_frame() == pcm
            &&& s.pushed(h, pcm).next_timing() == Some(
                FrameTiming { ts_ms: h.ts_ms, first: s.stats.played == 0 },
            )
            &&& !s.pushed(h, pcm).popped().window.contains_key(h.seq)
        },
{
}

/// The order in which two frames arrive does not matter, as long as neither pushes another out: the
/// same frames wait, and the same frame is played next.
pub proof fn law_arrival_order_is_undone(
    s: JitterState,
    a: Header,
    pcm_a: Seq<i16>,
    b: Header,
    pcm_b: Seq<i16>,
)
    requires
        s.wf(),
        a.seq != b.seq,
        s.is_late(a.seq) || s.is_late(b.seq) || {
            &&& s.window.len() < WINDOW_LIMIT
            &&& s.pushed(a, pcm_a).window.len() < WINDOW_LIMIT
            &&& s.pushed(b, pcm_b).window.len() < WINDOW_LIMIT
        },
    ensures
        s.pushed(a, pcm_a).pushed(b, pcm_b).window == s.pushed(b, pcm_b).pushed(a, pcm_a).window,
        s.pushed(a, pcm_a).pushed(b, pcm_b).next_frame() == s.pushed(b, pcm_b).pushed(
            a,
            pcm_a,
        ).next_frame(),
{
    let ab = s.pushed(a, pcm_a).pushed(b, pcm_b);
    let ba = s.pushed(b, pcm_b).pushed(a, pcm_a);
    if s.window.len() > 0 {
        lemma_highest(s);
        if s.is_late(a.seq) {
            lemma_highest(s.pushed(a, pcm_a));
            assert(s.is_highest(s.pushed(a, pcm_a).highest()));
        }
        if s.is_late(b.seq) {
            lemma_highest(s.pushed(b, pcm_b));
            assert(s.is_highest(s.pushed(b, pcm_b).highest()));
        }
    }
    assert(ab.window =~= ba.window);
}

/// A frame that waits stays as it is until its turn, unless another arrival takes its number or
/// finds the window full and it is the highest.
pub proof fn law_waiting_frame_stays(s: JitterState, k: u32, h: Header, pcm: Seq<i16>)
    requires
        s.window.contains_key(k),
    ensures
        k != h.seq && !(s.window.len() >= WINDOW_LIMIT && k == s.highest()) ==> {
            &&& s.pushed(h, pcm).window.contains_key(k)
            &&& s.pushed(h, pcm).window[k] == s.window[k]
        },
        k != s.next_seq ==> {
            &&& s.popped().window.contains_key(k)
            &&& s.popped().window[k] == s.window[k]
        },
{
}

/// A frame that arrives twice waits once, and the frames beside it stay as they are, unless the
/// first arrival leaves the window full and the second pushes out a frame with a higher number.
pub proof fn law_duplicate_waits_once(s: JitterState, h: Header, pcm: Seq<i16>)
    requires
        s.wf(),
        s.pushed(h, pcm).window.len() >= WINDOW_LIMIT ==> s.is_late(h.seq) || s.pushed(
            h,
            pcm,
        ).highest() == h.seq,
    ensures
        s.pushed(h, pcm).pushed(h, pcm).window == s.pushed(h, pcm).window,
{
    assert(s.pushed(h, pcm).pushed(h, pcm).window =~= s.pushed(h, pcm).window);
}

/// Every tick moves the turn on by one and counts one frame, whatever had arrived.
pub proof fn law_ticks_keep_time(s: JitterState, n: nat)
    requires
        s.stats.played + n <= u64::MAX,
    ensures
        s.popped_times(n).next_seq == crate::sequence::seq_ahead(s.next_seq, n as int),
        s.popped_times(n).stats.played == s.stats.played + n,
        s.popped_times(n).stats.received == s.stats.received,
    decreases n,
{
    if n > 0 {
        law_ticks_keep_time(s, (n - 1) as nat);
    }
}

/// Frames with consecutive numbers are played one per tick, in their order: once playing may start,
/// the tick after `i` others plays the frame `i` places ahead.
pub proof fn law_run_is_played_in_order(s: JitterState, n: nat, i: nat)
    requires
        s.wf(),
        s.holds_run(n),
        !s.is_filling(),
        i < n,
        s.stats.played + n <= u64::MAX,
    ensures
        s.popped_times(i).is_hit(),
        s.popped_times(i).next_frame() == s.window[crate::sequence::seq_ahead(
            s.next_seq,
            i as int,
        )].1,
{
    lemma_run_is_kept(s, n, i);
}

proof fn lemma_run_is_kept(s: JitterState, n: nat, i: nat)
    requires
        s.wf(),
        s.holds_run(n),
        !s.is_filling(),
        i <= n,
        s.stats.played + n <= u64::MAX,
    ensures
        !s.popped_times(i).is_filling(),
        forall|j: int|
            i <= j < n ==> {
                let k = #[trigger] crate::sequence::seq_ahead(s.next_seq, j);
                &&& s.popped_times(i).window.contains_key(k)
                &&& s.popped_times(i).window[k] == s.window[k]
            },
        s.popped_times(i).next_seq == crate::sequence::seq_ahead(s.next_seq, i as int),
    decreases i,
{
    lemma_run_is_short(s, n);
    law_ticks_keep_time(s, i);
    if i > 0 {
        lemma_run_is_kept(s, n, (i - 1) as nat);
        let prev = s.popped_times((i - 1) as nat);
        assert forall|j: int| i <= j < n implies {
            let k = #[trigger] crate::sequence::seq_ahead(s.next_seq, j);
            &&& s.popped_times(i).window.contains_key(k)
            &&& s.popped_times(i).window[k] == s.window[k]
        } by {
            let k = crate::sequence::seq_ahead(s.next_seq, j);
            assert(k != prev.next_seq);
        }
    }
}

/// A run of waiting frames is no longer than the window.
proof fn lemma_run_is_short(s: JitterState, n: nat)
    requires
        s.wf(),
        s.holds_run(n),
    ensures
        n <= WINDOW_LIMIT,
{
    if n > WINDOW_LIMIT {
        let run = Seq::new(
            WINDOW_LIMIT as nat + 1,
            |i: int| crate::sequence::seq_ahead(s.next_seq, i),
        );
        assert(run.no_duplicates());
        run.unique_seq_to_set();
        assert forall|k: u32| run.to_set().contains(k) implies s.window.dom().contains(k) by {
            let i = choose|i: int| 0 <= i < run.len() && run[i] == k;
            assert(s.window.contains_key(crate::sequence::seq_ahead(s.next_seq, i)));
        }
        vstd::set_lib::lemma_len_subset(run.to_set(), s.window.dom());
    }
}

/// Where the frame whose turn it is has not arrived, the last one that was played is played again,
/// and stays the one to repeat.
pub proof fn law_gap_repeats_last_frame(s: JitterState)
    requires
        s.wf(),
        s.last_frame.len() > 0,
        !s.window.contains_key(s.next_seq),
    ensures
        s.next_frame() == s.last_frame,
        s.popped().last_frame == s.last_frame,
        s.popped().window == s.window,
{
}

/// The depth never shrinks and never exceeds its largest value.
pub proof fn law_depth_only_grows(s: JitterState, h: Header, pcm: Seq<i16>)
    requires
        s.wf(),
    ensures
        s.pushed(h, pcm).target_depth == s.target_depth,
        s.target_depth <= s.popped().target_depth <= MAX_JITTER_DEPTH,
{
}

/// No frame waits past its turn: arrivals never break that, and neither does a tick, unless it is
/// the first one, finds too few frames to start, and skips a frame that waits.
pub proof fn law_window_stays_fresh(s: JitterState, h: Header, pcm: Seq<i16>)
    requires
        s.wf(),
        s.is_fresh(),
    ensures
        s.pushed(h, pcm).is_fresh(),
        !(s.is_filling() && s.window.contains_key(s.next_seq)) ==> s.popped().is_fresh(),
{
    if s.window.len() > 0 {
        lemma_highest(s);
    }
    let p = s.pushed(h, pcm);
    assert forall|k: u32| #[trigger] p.window.contains_key(k) implies !p.is_late(k) by {
        if !s.is_late(h.seq) && k != h.seq {
            assert(s.window.contains_key(k));
        }
    }
    if !(s.is_filling() && s.window.contains_key(s.next_seq)) {
        let q = s.popped();
        assert forall|k: u32| #[trigger] q.window.contains_key(k) implies !q.is_late(k) by {
            assert(s.window.contains_key(k));
            assert(k != s.next_seq);
            assert(!s.is_late(k));
        }
    }
}

/// The delay of a frame between its time stamp and now; zero where the stamp lies ahead.
pub fn playout_delay_ms(now_ms: u64, ts_ms: u64) -> (d: u64)
    ensures
        d == if now_ms > ts_ms {
            now_ms - ts_ms
        } else {
            0
        },
{
    now_ms.saturating_sub(ts_ms)
}

/// What becomes of an arrival goes by its distance from the turn alone. Up to half of the circle
/// ahead it waits under its number and nothing is counted as late; from there on it is behind,
/// leaves the window alone, and is counted as late. Nothing that concerns playing changes.
pub proof fn law_arrival_is_judged_by_distance(
    b: &mut JitterBuffer,
    h: Header,
    pcm: Vec<i16>,
    ahead: int,
)
    requires
        call_ensures(JitterBuffer::push, (b, h, pcm), ()),
        old(b)@.stats.received < u64::MAX,
        old(b)@.stats.dropped_late < u64::MAX,
        0 <= ahead < 0x1_0000_0000,
        old(b)@.next_seq + ahead == h.seq || old(b)@.next_seq + ahead == h.seq + 0x1_0000_0000,
    ensures
        ahead <= 0x7fff_ffff ==> {
            &&& final(b)@.window.contains_key(h.seq)
            &&& final(b)@.window[h.seq] == (h, pcm@)
            &&& final(b)@.stats.dropped_late == old(b)@.stats.dropped_late
            &&& final(b)@.late == old(b)@.late
        },
        ahead >= 0x8000_0000 ==> {
            &&& final(b)@.window == old(b)@.window
            &&& final(b)@.stats.dropped_late == old(b)@.stats.dropped_late + 1
            &&& final(b)@.stats.reordered == old(b)@.stats.reordered
        },
        final(b)@.stats.received == old(b)@.stats.received + 1,
        final(b)@.stats.played == old(b)@.stats.played,
        final(b)@.stats.plc_frames == old(b)@.stats.plc_frames,
        final(b)@.next_seq == old(b)@.next_seq,
        final(b)@.target_depth == old(b)@.target_depth,
        final(b)@.last_frame == old(b)@.last_frame,
{
}

/// An arrival in time costs no other frame its place, but where seven wait already: then the one
/// with the largest number leaves. No frame comes to wait that neither waited nor arrived.
pub proof fn law_arrival_costs_at_most_the_highest(
    b: &mut JitterBuffer,
    h: Header,
    pcm: Vec<i16>,
    ahead: int,
    k: u32,
)
    requires
        call_ensures(JitterBuffer::push, (b, h, pcm), ()),
        old(b)@.window.dom().finite(),
        0 <= ahead <= 0x7fff_ffff,
        old(b)@.next_seq + ahead == h.seq || old(b)@.next_seq + ahead == h.seq + 0x1_0000_0000,
        k != h.seq,
    ensures
        final(b)@.window.contains_key(k) <==> old(b)@.window.contains_key(k)
            && !(old(b)@.window.len() >= 7 && forall|j: u32| #[trigger]
            old(b)@.window.contains_key(j) ==> j <= k),
        final(b)@.window.contains_key(k) ==> final(b)@.window[k] == old(b)@.window[k],
{
    if old(b)@.window.len() > 0 {
        lemma_highest(old(b)@);
        if old(b)@.window.contains_key(k) && (forall|j: u32| #[trigger]
            old(b)@.window.contains_key(j) ==> j <= k) {
            assert(old(b)@.is_highest(k));
        }
    }
}

/// An arrival in time is counted as out of order exactly where it leaves a gap of one up to half of
/// the circle behind the number that follows the largest one waiting, and never in an empty window.
pub proof fn law_gap_before_arrival_is_counted(
    b: &mut JitterBuffer,
    h: Header,
    pcm: Vec<i16>,
    ahead: int,
    top: u32,
    gap: int,
)
    requires
        call_ensures(JitterBuffer::push, (b, h, pcm), ()),
        old(b)@.window.dom().finite(),
        old(b)@.stats.reordered < u64::MAX,
        0 <= ahead <= 0x7fff_ffff,
        old(b)@.next_seq + ahead == h.seq || old(b)@.next_seq + ahead == h.seq + 0x1_0000_0000,
        0 <= gap < 0x1_0000_0000,
        (top + 1 + gap - h.seq) % 0x1_0000_0000 == 0,
    ensures
        old(b)@.window.len() == 0 ==> final(b)@.stats.reordered == old(b)@.stats.reordered,
        old(b)@.window.contains_key(top) && (forall|j: u32| #[trigger]
            old(b)@.window.contains_key(j) ==> j <= top)
                ==> final(b)@.stats.reordered == old(b)@.stats.reordered
                    + if 1 <= gap <= 0x8000_0000 {
            1int
        } else {
            0
        },
{
    let s = old(b)@;
    if s.window.contains_key(top) && (forall|j: u32| #[trigger] s.window.contains_key(j) ==> j
        <= top) {
        assert(s.window.dom().contains(top));
        assert(s.window.len() > 0) by {
            if s.window.dom().len() == 0 {
                assert(s.window.dom() =~= Set::empty());
            }
        }
        lemma_highest(s);
        assert(s.is_highest(top));
    }
}

/// The last 256 late arrivals are remembered, in the order of their arrival.
pub proof fn law_late_arrivals_are_remembered(
    b: &mut JitterBuffer,
    h: Header,
    pcm: Vec<i16>,
    ahead: int,
    i: int,
)
    requires
        call_ensures(JitterBuffer::push, (b, h, pcm), ()),
        old(b)@.late.len() <= 256,
        0x8000_0000 <= ahead < 0x1_0000_0000,
        old(b)@.next_seq + ahead == h.seq || old(b)@.next_seq + ahead == h.seq + 0x1_0000_0000,
    ensures
        old(b)@.late.len() < 256 ==> final(b)@.late.len() == old(b)@.late.len() + 1,
        old(b)@.late.len() == 256 ==> final(b)@.late.len() == 256,
        final(b)@.late[final(b)@.late.len() - 1] == h.seq,
        0 <= i < old(b)@.late.len() && old(b)@.late.len() < 256
            ==> final(b)@.late[i] == old(b)@.late[i],
        0 <= i < 255 && old(b)@.late.len() == 256 ==> final(b)@.late[i] == old(b)@.late[i + 1],
{
}

/// A tick plays the frame whose turn it is wherever that frame waits and playing has begun or
/// enough frames wait to begin. Playing has begun as soon as anything was handed out, made-up
/// frames included; enough are as many as the depth asks for, after a burst of late arrivals has
/// deepened it. The frame comes out as it went in, with its time stamp, and leaves the window; no
/// other does.
pub proof fn law_frame_that_waits_is_played_at_its_turn(b: &mut JitterBuffer, r: Playout, k: u32)
    requires
        call_ensures(JitterBuffer::pop_for_playout, (b,), r),
        old(b)@.stats.played < u64::MAX,
        old(b)@.window.contains_key(old(b)@.next_seq),
        old(b)@.stats.played > 0 || old(b)@.window.len() >= final(b)@.target_depth,
    ensures
        r.frame@ == old(b)@.window[old(b)@.next_seq].1,
        r.timing is Some,
        r.timing->0.ts_ms == old(b)@.window[old(b)@.next_seq].0.ts_ms,
        r.timing->0.first <==> old(b)@.stats.played == 0,
        final(b)@.last_frame == r.frame@,
        final(b)@.stats.plc_frames == old(b)@.stats.plc_frames,
        final(b)@.window.contains_key(k) <==> old(b)@.window.contains_key(k)
            && k != old(b)@.next_seq,
        final(b)@.window.contains_key(k) ==> final(b)@.window[k] == old(b)@.window[k],
{
}

/// A tick makes a frame up exactly where the frame whose turn it is does not wait, or where nothing
/// was handed out before and fewer frames wait than the depth asks for. The made-up frame is the
/// last one that was played, or 320 zeros where none was; the window and the frame to repeat stay.
pub proof fn law_missing_frame_is_made_up(b: &mut JitterBuffer, r: Playout, i: int)
    requires
        call_ensures(JitterBuffer::pop_for_playout, (b,), r),
        old(b)@.stats.plc_frames < u64::MAX,
        !old(b)@.window.contains_key(old(b)@.next_seq) || (old(b)@.stats.played == 0
            && old(b)@.window.len() < final(b)@.target_depth),
    ensures
        r.timing is None,
        old(b)@.last_frame.len() > 0 ==> r.frame@ == old(b)@.last_frame,
        old(b)@.last_frame.len() == 0 ==> r.frame@.len() == 320,
        old(b)@.last_frame.len() == 0 && 0 <= i < 320 ==> r.frame@[i] == 0,
        final(b)@.window == old(b)@.window,
        final(b)@.last_frame == old(b)@.last_frame,
        final(b)@.stats.plc_frames == old(b)@.stats.plc_frames + 1,
{
}

/// Every tick moves the turn on by one and counts one frame as handed out. Fifty late arrivals or
/// more make the buffer one frame deeper, up to five, and are forgotten; fewer change neither. What
/// has arrived is not counted anew.
pub proof fn law_tick_keeps_the_books(b: &mut JitterBuffer, r: Playout)
    requires
        call_ensures(JitterBuffer::pop_for_playout, (b,), r),
        old(b)@.stats.played < u64::MAX,
    ensures
        old(b)@.next_seq < u32::MAX ==> final(b)@.next_seq == old(b)@.next_seq + 1,
        old(b)@.next_seq == u32::MAX ==> final(b)@.next_seq == 0,
        final(b)@.stats.played == old(b)@.stats.played + 1,
        final(b)@.stats.received == old(b)@.stats.received,
        final(b)@.stats.dropped_late == old(b)@.stats.dropped_late,
        final(b)@.stats.reordered == old(b)@.stats.reordered,
        old(b)@.late.len() < 50 ==> final(b)@.late == old(b)@.late,
        old(b)@.late.len() >= 50 ==> final(b)@.late.len() == 0,
        old(b)@.late.len() >= 50 && old(b)@.target_depth < 5
            ==> final(b)@.target_depth == old(b)@.target_depth + 1,
        old(b)@.late.len() < 50 || old(b)@.target_depth >= 5
            ==> final(b)@.target_depth == old(b)@.target_depth,
{
}

/// A frame that arrives at its turn is what the very next tick hands out, once anything was handed
/// out before: the samples and the time stamp are those that were put in.
pub proof fn law_arrival_at_its_turn_is_played_next(
    b: &mut JitterBuffer,
    h: Header,
    pcm: Vec<i16>,
    c: &mut JitterBuffer,
    r: Playout,
)
    requires
        call_ensures(JitterBuffer::push, (b, h, pcm), ()),
        *old(c) == *final(b),
        call_ensures(JitterBuffer::pop_for_playout, (c,), r),
        h.seq == old(b)@.next_seq,
        old(b)@.stats.played > 0,
    ensures
        r.frame@ == pcm@,
        r.timing == Some(FrameTiming { ts_ms: h.ts_ms, first: false }),
{
}

/// Once anything was handed out, a frame that waits `n` places ahead is what the tick after `n`
/// others hands out, whatever else waits and however many frames were made up before.
pub proof fn law_waiting_frame_is_played_in_time(s: JitterState, k: u32, n: nat)
    requires
        s.window.contains_key(k),
        s.stats.played > 0,
        s.stats.played + n < u64::MAX,
        n < 0x1_0000_0000,
        s.next_seq + n == k || s.next_seq + n == k + 0x1_0000_0000,
    ensures
        s.popped_times(n).next_frame() == s.window[k].1,
        s.popped_times(n).next_timing() == Some(
            FrameTiming { ts_ms: s.window[k].0.ts_ms, first: false },
        ),
{
    lemma_frame_waits_on(s, k, n, n);
    law_ticks_keep_time(s, n);
}

proof fn lemma_frame_waits_on(s: JitterState, k: u32, n: nat, i: nat)
    requires
        s.window.contains_key(k),
        s.stats.played > 0,
        s.stats.played + n < u64::MAX,
        i <= n < 0x1_0000_0000,
        s.next_seq + n == k || s.next_seq + n == k + 0x1_0000_0000,
    ensures
        s.popped_times(i).window.contains_key(k),
        s.popped_times(i).window[k] == s.window[k],
    decreases i,
{
    if i > 0 {
        lemma_frame_waits_on(s, k, n, (i - 1) as nat);
        law_ticks_keep_time(s, (i - 1) as nat);
    }
}

/// A new buffer holds nothing, has counted nothing, and waits for the number that it was given,
/// with three frames to begin; and the counters that it shows are those that it keeps.
pub proof fn law_new_buffer_is_empty(
    initial_seq: u32,
    b: JitterBuffer,
    k: u32,
    c: JitterBuffer,
    s: Stats,
)
    requires
        call_ensures(JitterBuffer::new, (initial_seq,), b),
        call_ensures(JitterBuffer::stats, (&c,), s),
    ensures
        b@.next_seq == initial_seq,
        !b@.window.contains_key(k),
        b@.window.len() == 0,
        b@.target_depth == 3,
        b@.last_frame.len() == 0,
        b@.late.len() == 0,
        b@.stats.received == 0 && b@.stats.played == 0 && b@.stats.plc_frames == 0,
        b@.stats.dropped_late == 0 && b@.stats.reordered == 0,
        s == c@.stats,
{
}

/// A buffer takes every arrival and every tick, until a counter is full.
pub proof fn law_buffer_always_answers(
    initial_seq: u32,
    b: &mut JitterBuffer,
    h: Header,
    pcm: Vec<i16>,
)
    requires
        old(b).wf(),
    ensures
        call_requires(JitterBuffer::new, (initial_seq,)),
        old(b)@.stats.received < u64::MAX ==> call_requires(JitterBuffer::push, (b, h, pcm)),
        old(b)@.stats.played < u64::MAX ==> call_requires(JitterBuffer::pop_for_playout, (b,)),
{
}

/// The delay and the time stamp add up to now; a stamp that lies ahead has no delay.
pub proof fn law_delay_is_the_time_since_the_stamp(now_ms: u64, ts_ms: u64, d: u64)
    requires
        call_ensures(playout_delay_ms, (now_ms, ts_ms), d),
    ensures
        ts_ms <= now_ms ==> ts_ms + d == now_ms,
        ts_ms > now_ms ==> d == 0,
        call_requires(playout_delay_ms, (now_ms, ts_ms)),
{
}

} // verus!
