use vstd::prelude::*;
use crate::animation::{
    ANIMATION_USECS, FACTOR_ONE, eased, ease_out_cubic, lemma_eased_range, lemma_eased_thresholds,
};
use crate::fixed::{UNIT, clamp_int};
use crate::peaks::{PeakPair, normalize_peaks, normalized, lemma_normalized_range};
use vstd::arithmetic::div_mod::{lemma_div_is_ordered, lemma_div_plus_one};

verus! {

/// What the host has to do after a frame of animation.
#[derive(Clone, Copy, Debug, PartialEq, Eq, Structural)]
pub enum Request {
    Nothing,
    Redraw,
    Resize,
}

/// The outcome of one frame tick: whether the tick callback stays installed,
/// and what the host should refresh.
#[derive(Clone, Copy, Debug, PartialEq, Eq, Structural)]
pub struct FrameStep {
    pub keep_ticking: bool,
    pub request: Request,
}

/// The mathematical state of a waveform widget.
pub struct WaveformModel {
    pub position: u64,
    pub hover: Option<u64>,
    pub peaks: Option<Seq<PeakPair>>,
    /// A replacement waiting for the fade-out to end: `Some(None)` clears the peaks.
    pub next: Option<Option<Seq<PeakPair>>>,
    pub ticking: bool,
    pub start: Option<u64>,
    pub factor: Option<u64>,
}

pub open spec fn peaks_in_range(s: Seq<PeakPair>) -> bool {
    forall|i: int| 0 <= i < s.len() ==> (#[trigger] s[i]).left <= UNIT && s[i].right <= UNIT
}

pub open spec fn opt_peaks_in_range(p: Option<Seq<PeakPair>>) -> bool {
    match p {
        Some(s) => peaks_in_range(s),
        None => true,
    }
}

/// The state invariant: positions are fractions, peaks are normalised, and no
/// replacement, start time or factor lingers without a tick callback.
pub open spec fn wf(m: WaveformModel) -> bool {
    &&& m.position <= UNIT
    &&& (m.hover matches Some(h) ==> h <= UNIT)
    &&& opt_peaks_in_range(m.peaks)
    &&& (m.next matches Some(n) ==> opt_peaks_in_range(n))
    &&& (m.next is Some ==> m.ticking)
    &&& (m.start is Some ==> m.ticking)
    &&& (m.factor matches Some(f) ==> m.ticking && f <= FACTOR_ONE)
}

/// The widget at rest: nothing pending and no tick callback.
pub open spec fn idle(m: WaveformModel) -> bool {
    !m.ticking && m.next is None && m.start is None && m.factor is None
}

pub open spec fn raw_view(p: Option<Vec<(u32, u32)>>) -> Option<Seq<(u32, u32)>> {
    match p {
        Some(v) => Some(v@),
        None => None,
    }
}

pub open spec fn normalized_opt(p: Option<Seq<(u32, u32)>>) -> Option<Seq<PeakPair>> {
    match p {
        Some(s) => Some(normalized(s)),
        None => None,
    }
}

/// New peaks: shown at once without animation; otherwise queued behind a
/// fade-out of the current ones, with a fresh tick callback replacing any
/// earlier one.
pub open spec fn set_peaks_model(m: WaveformModel, p: Option<Seq<PeakPair>>, animate: bool) -> WaveformModel {
    if animate {
        WaveformModel { next: Some(p), ticking: true, start: None, factor: None, ..m }
    } else {
        WaveformModel { peaks: p, next: None, ticking: false, start: None, factor: None, ..m }
    }
}

/// One frame of the animation at frame time `now`.
pub open spec fn tick_model(m: WaveformModel, now: u64) -> (WaveformModel, FrameStep) {
    let cont = FrameStep { keep_ticking: true, request: Request::Nothing };
    match m.start {
        None => (WaveformModel { start: Some(now), ..m }, cont),
        Some(s) => {
            if now < s {
                (m, cont)
            } else {
                let e = now - s;
                if m.peaks is Some && m.next is Some {
                    let d = eased(ANIMATION_USECS - e);
                    if d < 0 {
                        (WaveformModel { peaks: None, factor: None, ..m }, cont)
                    } else {
                        (
                            WaveformModel { factor: Some(d as u64), ..m },
                            FrameStep { keep_ticking: true, request: Request::Redraw },
                        )
                    }
                } else if m.peaks is Some {
                    let d = eased(e);
                    if d >= FACTOR_ONE {
                        (
                            WaveformModel { factor: None, start: None, ticking: false, ..m },
                            FrameStep { keep_ticking: false, request: Request::Resize },
                        )
                    } else {
                        (
                            WaveformModel { factor: Some(d as u64), ..m },
                            FrameStep { keep_ticking: true, request: Request::Redraw },
                        )
                    }
                } else if m.next is Some {
                    (
                        WaveformModel { peaks: m.next.unwrap(), next: None, factor: None, start: None, ..m },
                        FrameStep { keep_ticking: true, request: Request::Resize },
                    )
                } else {
                    (
                        WaveformModel { factor: None, start: None, ticking: false, ..m },
                        FrameStep { keep_ticking: false, request: Request::Resize },
                    )
                }
            }
        }
    }
}

/// The state after ticks at the given frame times, stopping once the tick
/// callback is removed.
pub open spec fn run_frames(m: WaveformModel, times: Seq<u64>) -> WaveformModel
    decreases times.len(),
{
    if times.len() == 0 || !m.ticking {
        m
    } else {
        run_frames(tick_model(m, times[0]).0, times.drop_first())
    }
}

/// The state of a waveform seek bar.
pub struct WaveformView {
    position: u64,
    hover_position: Option<u64>,
    peaks: Option<Vec<PeakPair>>,
    next_peaks: Option<Option<Vec<PeakPair>>>,
    ticking: bool,
    first_frame_time: Option<u64>,
    factor: Option<u64>,
}

pub open spec fn vec_opt_view(p: Option<Vec<PeakPair>>) -> Option<Seq<PeakPair>> {
    match p {
        Some(v) => Some(v@),
        None => None,
    }
}

impl View for WaveformView {
    type V = WaveformModel;

    closed spec fn view(&self) -> WaveformModel {
        WaveformModel {
            position: self.position,
            hover: self.hover_position,
            peaks: vec_opt_view(self.peaks),
            next: match self.next_peaks {
                Some(n) => Some(vec_opt_view(n)),
                None => None,
            },
            ticking: self.ticking,
            start: self.first_frame_time,
            factor: self.factor,
        }
    }
}

impl WaveformView {
    /// An empty widget at position zero, at rest.
    pub fn new() -> (r: WaveformView)
        ensures
            wf(r@),
            idle(r@),
            r@.position == 0,
            r@.hover is None,
            r@.peaks is None,
    {
        WaveformView {
            position: 0,
            hover_position: None,
            peaks: None,
            next_peaks: None,
            ticking: false,
            first_frame_time: None,
            factor: None,
        }
    }

    pub fn position(&self) -> (r: u64)
        ensures
            r == self@.position,
    {
        self.position
    }

    pub fn hover_position(&self) -> (r: Option<u64>)
        ensures
            r == self@.hover,
    {
        self.hover_position
    }

    pub fn peaks(&self) -> (r: Option<&Vec<PeakPair>>)
        ensures
            match r {
                Some(v) => self@.peaks == Some(v@),
                None => self@.peaks is None,
            },
    {
        match &self.peaks {
            Some(v) => Some(v),
            None => None,
        }
    }

    /// Whether a tick callback should be installed.
    pub fn is_ticking(&self) -> (r: bool)
        ensures
            r == self@.ticking,
    {
        self.ticking
    }

    /// The scale applied to bar heights by the running animation, in units of
    /// `FACTOR_ONE`.
    pub fn factor(&self) -> (r: Option<u64>)
        ensures
            r == self@.factor,
    {
        self.factor
    }

    pub fn has_pending_peaks(&self) -> (r: bool)
        ensures
            r == self@.next is Some,
    {
        self.next_peaks.is_some()
    }

    /// Stores a playback position, clamped to `[0, UNIT]`.
    pub fn set_position(&mut self, position: i64) -> (r: u64)
        requires
            wf(old(self)@),
        ensures
            r as int == clamp_int(position as int, 0, UNIT as int),
            final(self)@ == (WaveformModel { position: r, ..old(self)@ }),
            wf(final(self)@),
    {
        let pos: u64 = if position < 0 {
            0
        } else if position as u64 > UNIT {
            UNIT
        } else {
            position as u64
        };
        self.position = pos;
        pos
    }

    /// Stores a pointer-scrub position, clamped to `[0, UNIT]`, or forgets it.
    pub fn set_hover_position(&mut self, hover: Option<i64>)
        requires
            wf(old(self)@),
        ensures
            final(self)@ == (WaveformModel {
                hover: match hover {
                    Some(h) => Some(clamp_int(h as int, 0, UNIT as int) as u64),
                    None => None,
                },
                ..old(self)@
            }),
            wf(final(self)@),
    {
        self.hover_position = match hover {
            Some(h) => Some(
                if h < 0 {
                    0
                } else if h as u64 > UNIT {
                    UNIT
                } else {
                    h as u64
                },
            ),
            None => None,
        };
    }

    /// Replaces the peaks with the normalised form of `peaks` (`None` clears
    /// them). Without animation they show at once; with it, they wait for the
    /// current peaks to fade out, and the widget starts ticking afresh. Any
    /// earlier tick callback is superseded, never kept alongside.
    pub fn set_peaks(&mut self, peaks: Option<Vec<(u32, u32)>>, animate: bool)
        requires
            wf(old(self)@),
        ensures
            final(self)@ == set_peaks_model(old(self)@, normalized_opt(raw_view(peaks)), animate),
            wf(final(self)@),
    {
        let pairs = match &peaks {
            Some(p) => {
                let n = normalize_peaks(p);
                proof {
                    lemma_normalized_range(p@);
                }
                Some(n)
            },
            None => None,
        };
        self.first_frame_time = None;
        self.factor = None;
        if animate {
            self.next_peaks = Some(pairs);
            self.ticking = true;
        } else {
            self.peaks = pairs;
            self.next_peaks = None;
            self.ticking = false;
        }
    }

    /// Advances the animation to frame time `now` (microseconds): record the
    /// start, fade the current peaks out, swap in the pending ones, fade them
    /// in, and stop.
    pub fn tick(&mut self, now: u64) -> (r: FrameStep)
        requires
            wf(old(self)@),
            old(self)@.ticking,
        ensures
            (final(self)@, r) == tick_model(old(self)@, now),
            wf(final(self)@),
            r.keep_ticking == final(self)@.ticking,
    {
        let ghost m = self@;
        let cont = FrameStep { keep_ticking: true, request: Request::Nothing };
        let start = match self.first_frame_time {
            None => {
                self.first_frame_time = Some(now);
                return cont;
            },
            Some(s) => s,
        };
        if now < start {
            return cont;
        }
        let e: u64 = now - start;
        proof {
            lemma_eased_thresholds(e as int);
        }
        let has_peaks = self.peaks.is_some();
        let has_next = self.next_peaks.is_some();
        if has_peaks && has_next {
            if e > ANIMATION_USECS {
                self.peaks = None;
                self.factor = None;
                cont
            } else {
                proof {
                    lemma_eased_range(ANIMATION_USECS - e);
                }
                self.factor = Some(ease_out_cubic(ANIMATION_USECS - e));
                FrameStep { keep_ticking: true, request: Request::Redraw }
            }
        } else if has_peaks {
            if e >= ANIMATION_USECS {
                self.factor = None;
                self.first_frame_time = None;
                self.ticking = false;
                FrameStep { keep_ticking: false, request: Request::Resize }
            } else {
                proof {
                    lemma_eased_range(e as int);
                }
                self.factor = Some(ease_out_cubic(e));
                FrameStep { keep_ticking: true, request: Request::Redraw }
            }
        } else if has_next {
            let next = self.next_peaks.take();
            self.peaks = match next {
                Some(n) => n,
                None => None,
            };
            self.factor = None;
            self.first_frame_time = None;
            FrameStep { keep_ticking: true, request: Request::Resize }
        } else {
            self.factor = None;
            self.first_frame_time = None;
            self.ticking = false;
            FrameStep { keep_ticking: false, request: Request::Resize }
        }
    }
}

proof fn lemma_normalized_opt_range(p: Option<Seq<(u32, u32)>>)
    ensures
        opt_peaks_in_range(normalized_opt(p)),
{
    if let Some(s) = p {
        lemma_normalized_range(s);
    }
}

/// Calling `set_peaks` twice in a row leaves a well-formed state with at
/// most one tick callback: the widget ticks exactly when the second call
/// animates, the second call's peaks are the only ones pending, and no start
/// time or factor of the first call survives.
pub proof fn lemma_set_peaks_twice(
    m: WaveformModel,
    first: Option<Seq<(u32, u32)>>,
    animate_first: bool,
    second: Option<Seq<(u32, u32)>>,
    animate_second: bool,
)
    requires
        wf(m),
    ensures
        ({
            let r = set_peaks_model(
                set_peaks_model(m, normalized_opt(first), animate_first),
                normalized_opt(second),
                animate_second,
            );
            &&& wf(r)
            &&& r.ticking == animate_second
            &&& r.start is None
            &&& r.factor is None
            &&& animate_second ==> r.next == Some(normalized_opt(second))
            &&& !animate_second ==> idle(r) && r.peaks == normalized_opt(second)
        }),
{
    lemma_normalized_opt_range(first);
    lemma_normalized_opt_range(second);
}

/// Ticks left in the fade-out that started at `s`, counting from a frame at `now`.
pub open spec fn exit_left(s: int, now: int, d: int) -> int {
    if now - s > ANIMATION_USECS {
        1
    } else {
        (s + ANIMATION_USECS - now) / d + 2
    }
}

/// Ticks left in the fade-in that started at `s`, counting from a frame at `now`.
pub open spec fn enter_left(s: int, now: int, d: int) -> int {
    if now - s >= ANIMATION_USECS {
        1
    } else {
        (s + ANIMATION_USECS - now + d - 1) / d + 1
    }
}

/// A bound on the ticks that bring a state to rest when the next frame comes
/// at `now` and frames come at least `d` microseconds apart.
pub open spec fn ticks_left(m: WaveformModel, now: int, d: int) -> int {
    let full_in = (ANIMATION_USECS + d - 1) / d;
    if !m.ticking {
        0
    } else if m.peaks is Some && m.next is Some {
        match m.start {
            None => (ANIMATION_USECS as int) / d + 4 + full_in,
            Some(s) => exit_left(s as int, now, d) + 2 + full_in,
        }
    } else if m.peaks is Some {
        match m.start {
            None => 1 + full_in,
            Some(s) => enter_left(s as int, now, d),
        }
    } else if m.next is Some {
        match m.start {
            None => 3 + full_in,
            Some(_) => 2 + full_in,
        }
    } else {
        match m.start {
            None => 2,
            Some(_) => 1,
        }
    }
}

proof fn lemma_div_facts(d: int)
    requires
        d > 0,
    ensures
        (ANIMATION_USECS + d - 1) / d >= 1,
        (ANIMATION_USECS + d - 1) / d <= (ANIMATION_USECS as int) / d + 1,
        forall|x: int, y: int| #![trigger x / d, y / d] x <= y ==> x / d <= y / d,
        forall|x: int| #![trigger (x + d) / d] (x + d) / d == x / d + 1,
{
    assert forall|x: int, y: int| #![trigger x / d, y / d] x <= y implies x / d <= y / d by {
        lemma_div_is_ordered(x, y, d);
    }
    assert forall|x: int| #![trigger (x + d) / d] (x + d) / d == x / d + 1 by {
        lemma_div_plus_one(x, d);
        assert(d + x == x + d);
    }
    lemma_div_plus_one(0, d);
    assert(0int / d == 0);
    lemma_div_is_ordered(d, ANIMATION_USECS + d - 1, d);
    lemma_div_is_ordered(ANIMATION_USECS + d - 1, ANIMATION_USECS + d, d);
    lemma_div_plus_one(ANIMATION_USECS as int, d);
    assert(d + ANIMATION_USECS == ANIMATION_USECS + d);
}

/// Each frame, `d` or more microseconds after the one before, takes at least
/// one off the bound while the widget keeps ticking.
proof fn lemma_tick_progress(m: WaveformModel, now: u64, next: int, d: int)
    requires
        wf(m),
        m.ticking,
        d > 0,
        next >= now + d,
        m.start matches Some(s) ==> s <= now,
    ensures
        ticks_left(m, now as int, d) >= 1,
        tick_model(m, now).0.ticking ==> ticks_left(tick_model(m, now).0, next, d)
            <= ticks_left(m, now as int, d) - 1,
        tick_model(m, now).0.start matches Some(s) ==> s <= now,
{
    lemma_div_facts(d);
    let dd = ANIMATION_USECS as int;
    let m1 = tick_model(m, now).0;
    if let Some(s) = m.start {
        lemma_eased_thresholds((now - s) as int);
        let x = s + dd - now;
        if m.peaks is Some && m.next is Some {
            if now - s <= dd {
                assert(x >= 0);
                if next - s <= dd {
                    assert(s + dd - next <= x - d);
                    assert((s + dd - next) / d <= (x - d) / d);
                    assert((x - d + d) / d == (x - d) / d + 1);
                    assert(x - d + d == x);
                }
            }
        } else if m.peaks is Some {
            if now - s < dd {
                assert(x + d - 1 >= d);
                assert((x + d - 1) / d >= d / d);
                assert((0 + d) / d == 0int / d + 1);
                if next - s < dd {
                    assert(s + dd - next + d - 1 <= x - 1);
                    assert((s + dd - next + d - 1) / d <= (x - 1) / d);
                    assert((x - 1 + d) / d == (x - 1) / d + 1);
                }
            }
        }
    } else {
        if m.peaks is Some && m.next is Some {
            if next - now <= dd {
                assert(now + dd - next <= dd - d);
                assert((now + dd - next) / d <= (dd - d) / d);
                assert((dd - d + d) / d == (dd - d) / d + 1);
                assert(dd - d + d == dd);
            }
        } else if m.peaks is Some {
            if next - now < dd {
                assert(now + dd - next + d - 1 <= dd - 1);
                assert((now + dd - next + d - 1) / d <= (dd - 1) / d);
                assert((dd - 1 + d) / d == (dd - 1) / d + 1);
                assert(dd - 1 + d == dd + d - 1);
            }
        }
    }
    if m.peaks is Some && m.next is Some {
        if let Some(s) = m.start {
            assert(exit_left(s as int, now as int, d) <= dd / d + 2) by {
                if now - s <= dd {
                    assert(s + dd - now <= dd);
                }
            }
        }
    }
}

/// From any well-formed state, frames that come at least `d` microseconds
/// apart bring the widget to rest within `2 * ((ANIMATION_USECS as int) / d) + 5`
/// ticks: each of the fade-out and the fade-in ends once a full animation
/// length has passed since it began. At rest there is no tick callback,
/// nothing pending and no factor, and the peaks shown are the pending
/// replacement if there was one (none when it clears them), else the peaks
/// shown before.
pub proof fn lemma_animation_settles(m: WaveformModel, times: Seq<u64>, d: int)
    requires
        wf(m),
        d > 0,
        times.len() >= 2 * ((ANIMATION_USECS as int) / d) + 5,
        forall|i: int| 1 <= i < times.len() ==> times[i - 1] + d <= #[trigger] times[i],
        m.start matches Some(s) ==> s <= times[0],
    ensures
        idle(run_frames(m, times)),
        wf(run_frames(m, times)),
        m.next matches Some(x) ==> run_frames(m, times).peaks == x,
        m.next is None ==> run_frames(m, times).peaks == m.peaks,
{
    let target = match m.next {
        Some(x) => x,
        None => m.peaks,
    };
    lemma_div_facts(d);
    let dd = ANIMATION_USECS as int;
    if m.ticking && m.peaks is Some && m.next is Some {
        if let Some(s) = m.start {
            if times[0] - s <= dd {
                assert(s + dd - times[0] <= dd);
                assert((s + dd - times[0]) / d <= dd / d);
            }
        }
    }
    if m.ticking && m.peaks is Some && m.next is None {
        if let Some(s) = m.start {
            if times[0] - s < dd {
                assert(s + dd - times[0] + d - 1 <= dd + d - 1);
                assert((s + dd - times[0] + d - 1) / d <= (dd + d - 1) / d);
            }
        }
    }
    lemma_settles_from(m, times, 0, d, target);
    assert(times.subrange(0, times.len() as int) == times);
}

/// `k` frames of the schedule have passed; the rest of them suffice.
proof fn lemma_settles_from(m: WaveformModel, times: Seq<u64>, k: int, d: int, target: Option<Seq<PeakPair>>)
    requires
        wf(m),
        d > 0,
        0 <= k <= times.len(),
        forall|i: int| 1 <= i < times.len() ==> times[i - 1] + d <= #[trigger] times[i],
        k < times.len() ==> (m.start matches Some(s) ==> s <= times[k]),
        m.ticking ==> k < times.len() && ticks_left(m, times[k] as int, d) <= times.len() - k,
        m.next == Some(target) || (m.next is None && m.peaks == target),
    ensures
        idle(run_frames(m, times.subrange(k, times.len() as int))),
        wf(run_frames(m, times.subrange(k, times.len() as int))),
        run_frames(m, times.subrange(k, times.len() as int)).peaks == target,
    decreases times.len() - k,
{
    let rest = times.subrange(k, times.len() as int);
    if !m.ticking {
    } else {
        let now = times[k];
        let (m1, _) = tick_model(m, now);
        lemma_tick_wf(m, now);
        if let Some(s) = m.start {
            lemma_eased_thresholds((now - s) as int);
        }
        if k + 1 < times.len() {
            assert(times[k] + d <= times[k + 1]);
            lemma_tick_progress(m, now, times[k + 1] as int, d);
        } else {
            lemma_tick_progress(m, now, now + d, d);
            assert(ticks_left(m, now as int, d) <= 1);
        }
        assert(rest[0] == now);
        assert(rest.drop_first() == times.subrange(k + 1, times.len() as int));
        lemma_settles_from(m1, times, k + 1, d, target);
    }
}

/// A frame keeps the invariant.
pub proof fn lemma_tick_wf(m: WaveformModel, now: u64)
    requires
        wf(m),
        m.ticking,
    ensures
        wf(tick_model(m, now).0),
        tick_model(m, now).1.keep_ticking == tick_model(m, now).0.ticking,
{
    if let Some(s) = m.start {
        if now >= s {
            let e = now - s;
            lemma_eased_thresholds(e as int);
            if e <= ANIMATION_USECS {
                lemma_eased_range(ANIMATION_USECS - e);
                lemma_eased_range(e as int);
            }
        }
    }
}

} // verus!
