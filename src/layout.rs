use vstd::prelude::*;
use crate::animation::FACTOR_ONE;
use crate::fixed::{UNIT, clamp_int};
use crate::input::TextDirection;
use crate::peaks::PeakPair;
use crate::waveform::{WaveformModel, WaveformView, peaks_in_range, wf};

verus! {

/// Width of one bar, in pixels.
pub const BAR_SIZE: u64 = 2;

/// Gap between two bars, in pixels.
pub const SPACE_SIZE: u64 = 2;

/// Distance from one bar to the next, in pixels.
pub const BLOCK_SIZE: u64 = 4;

/// Widest preferred width, in pixels, and the preferred width without peaks.
pub const MAX_PREFERRED_WIDTH: u32 = 256;

/// Preferred height, in pixels.
pub const PREFERRED_HEIGHT: u32 = 48;

/// Which part of the waveform a bar falls in.
#[derive(Clone, Copy, Debug, PartialEq, Eq, Structural)]
pub enum Zone {
    /// Before the earlier cursor: already played.
    Played,
    /// Between the playback position and the scrub position.
    Hover,
    /// After the later cursor.
    Unplayed,
}

/// One vertical bar. `x` is its left edge in pixels; `y` and `height` are in
/// millionths of a pixel (`UNIT` to the pixel), measured from the top.
#[derive(Clone, Copy, Debug, PartialEq, Eq, Structural)]
pub struct Bar {
    pub x: i128,
    pub y: u64,
    pub height: u64,
    pub zone: Zone,
}

/// Everything the layout of the bars depends on besides the peaks.
/// `cursor_start` and `cursor_end` are the two zone boundaries in millionths
/// of a pixel from the left edge; `pitch_num / pitch_den` is the number of
/// pixels that one sample covers; `factor` is the animation scale in units of
/// `FACTOR_ONE`.
#[derive(Clone, Copy, Debug, PartialEq, Eq, Structural)]
pub struct Geometry {
    pub width: u32,
    pub height: u32,
    pub rtl: bool,
    pub pitch_num: u128,
    pub pitch_den: u128,
    pub factor: Option<u64>,
    pub cursor_start: u64,
    pub cursor_end: u64,
}

/// Preferred width: four pixels a sample up to `MAX_PREFERRED_WIDTH`, or
/// `MAX_PREFERRED_WIDTH` without peaks.
pub open spec fn preferred_width_spec(n_peaks: Option<nat>) -> int {
    match n_peaks {
        Some(n) => if BLOCK_SIZE * n < MAX_PREFERRED_WIDTH { BLOCK_SIZE * n } else { MAX_PREFERRED_WIDTH as int },
        None => MAX_PREFERRED_WIDTH as int,
    }
}

pub fn preferred_width(n_peaks: Option<usize>) -> (r: u32)
    ensures
        r == preferred_width_spec(
            match n_peaks {
                Some(n) => Some(n as nat),
                None => None,
            },
        ),
{
    match n_peaks {
        Some(n) => if n < 64 {
            (n * 4) as u32
        } else {
            MAX_PREFERRED_WIDTH
        },
        None => MAX_PREFERRED_WIDTH,
    }
}

/// Pixels per sample as a fraction: the natural pitch when all samples fit
/// within the width at that pitch, else the whole sequence squeezed into half
/// the width.
pub open spec fn pitch_spec(width: int, n: int) -> (int, int) {
    if n * BLOCK_SIZE <= width {
        (BLOCK_SIZE as int, 1)
    } else {
        (width, 2 * n)
    }
}

pub fn pixels_per_sample(width: u32, n: usize) -> (r: (u128, u128))
    requires
        width > 0,
    ensures
        (r.0 as int, r.1 as int) == pitch_spec(width as int, n as int),
        r.1 > 0,
        r.0 <= u32::MAX,
{
    if (n as u128) * (BLOCK_SIZE as u128) <= (width as u128) {
        (BLOCK_SIZE as u128, 1)
    } else {
        (width as u128, 2 * (n as u128))
    }
}

/// The zone boundaries for a playback position and an optional scrub
/// position, both fractions of `UNIT`, on a widget `width` pixels wide. The
/// playback position counts from the right edge in a right-to-left layout;
/// the scrub position is always a fraction from the left edge.
pub open spec fn cursors_spec(width: int, rtl: bool, position: int, hover: Option<u64>) -> (int, int) {
    let p = if rtl { UNIT - position } else { position };
    let c = p * width;
    match hover {
        None => (c, c),
        Some(h) => {
            let hc = h * width;
            if rtl {
                if h <= p { (c, hc) } else { (hc, c) }
            } else {
                if h <= p { (hc, c) } else { (c, hc) }
            }
        },
    }
}

pub fn cursors(width: u32, rtl: bool, position: u64, hover: Option<u64>) -> (r: (u64, u64))
    requires
        position <= UNIT,
        hover matches Some(h) ==> h <= UNIT,
    ensures
        (r.0 as int, r.1 as int) == cursors_spec(width as int, rtl, position as int, hover),
{
    let p: u64 = if rtl {
        UNIT - position
    } else {
        position
    };
    assert(p * width <= UNIT * u32::MAX) by (nonlinear_arith)
        requires
            p <= UNIT,
            width <= u32::MAX,
    ;
    let c: u64 = p * (width as u64);
    match hover {
        None => (c, c),
        Some(h) => {
            assert(h * width <= UNIT * u32::MAX) by (nonlinear_arith)
                requires
                    h <= UNIT,
                    width <= u32::MAX,
            ;
            let hc: u64 = h * (width as u64);
            if rtl {
                if h <= p {
                    (c, hc)
                } else {
                    (hc, c)
                }
            } else {
                if h <= p {
                    (hc, c)
                } else {
                    (c, hc)
                }
            }
        },
    }
}

/// The zone of a bar whose drawing cursor stands at `offset` pixels. Left to
/// right, a bar is played before the first boundary; right to left, after it.
pub open spec fn zone_spec(g: Geometry, offset: int) -> Zone {
    let o = offset * UNIT;
    if g.rtl {
        if o > g.cursor_start {
            Zone::Played
        } else if o > g.cursor_end {
            Zone::Hover
        } else {
            Zone::Unplayed
        }
    } else {
        if o < g.cursor_start {
            Zone::Played
        } else if o < g.cursor_end {
            Zone::Hover
        } else {
            Zone::Unplayed
        }
    }
}

/// Half the average of `count` summed amplitudes, scaled by the animation
/// factor (clamped to one) when there is one.
pub open spec fn half_scaled(sum: int, count: int, factor: Option<u64>) -> int {
    let half = sum / count / 2;
    match factor {
        Some(f) => half * (if f > FACTOR_ONE { FACTOR_ONE as int } else { f as int }) / (FACTOR_ONE as int),
        None => half,
    }
}

/// The bar for `count` samples whose amplitudes add up to `sum_left` and
/// `sum_right`, drawn at cursor `offset`: the left half rises above the
/// middle line and the right half hangs below it; the total height is kept
/// between two pixels and the full height, and the top within the upper half.
pub open spec fn bar_spec(g: Geometry, sum_left: int, sum_right: int, count: int, offset: int) -> Bar {
    let left = half_scaled(sum_left, count, g.factor) * g.height;
    let right = half_scaled(sum_right, count, g.factor) * g.height;
    let center = g.height * UNIT / 2;
    Bar {
        x: (if g.rtl { offset - BAR_SIZE } else { offset }) as i128,
        y: clamp_int(center - left, 0, center) as u64,
        height: clamp_int(left + right, BAR_SIZE * UNIT, g.height * UNIT) as u64,
        zone: zone_spec(g, offset),
    }
}

/// Where the walk over the samples stands: pixels covered since the last bar
/// (in units of `1 / pitch_den`), the samples gathered and their sums, and the
/// drawing cursor in pixels.
pub struct WalkState {
    pub acc: int,
    pub count: int,
    pub sum_left: int,
    pub sum_right: int,
    pub offset: int,
}

/// The start of the walk: nothing gathered, the cursor at the leading edge.
pub open spec fn walk_start(g: Geometry) -> WalkState {
    WalkState { acc: 0, count: 0, sum_left: 0, sum_right: 0, offset: if g.rtl { g.width as int } else { 0 } }
}

/// The bars drawn from sample `i` on. Each sample adds its pitch to the
/// pixels covered and its amplitudes to the sums; once more than one bar
/// width is covered, or at the last sample, the gathered samples become one
/// bar, one bar width is taken off the pixels covered, and the cursor moves
/// one block on.
pub open spec fn walk(peaks: Seq<PeakPair>, g: Geometry, i: int, st: WalkState) -> Seq<Bar>
    decreases peaks.len() - i,
{
    if i < 0 || i >= peaks.len() {
        Seq::empty()
    } else {
        let acc = st.acc + g.pitch_num;
        let count = st.count + 1;
        let sl = st.sum_left + peaks[i].left;
        let sr = st.sum_right + peaks[i].right;
        if acc > BAR_SIZE * g.pitch_den || i == peaks.len() - 1 {
            let step: int = if g.rtl { -(BLOCK_SIZE as int) } else { BLOCK_SIZE as int };
            seq![bar_spec(g, sl, sr, count, st.offset)] + walk(
                peaks,
                g,
                i + 1,
                WalkState {
                    acc: acc - BAR_SIZE * g.pitch_den,
                    count: 0,
                    sum_left: 0,
                    sum_right: 0,
                    offset: st.offset + step,
                },
            )
        } else {
            walk(peaks, g, i + 1, WalkState { acc, count, sum_left: sl, sum_right: sr, ..st })
        }
    }
}

/// Half the average of `count` amplitudes summing to `sum`, scaled by the factor.
fn half_scaled_exec(sum: u128, count: u128, factor: Option<u64>) -> (r: u64)
    requires
        count >= 1,
        sum <= count * UNIT,
    ensures
        r == half_scaled(sum as int, count as int, factor),
        r <= UNIT / 2,
{
    assert(sum / count <= UNIT) by (nonlinear_arith)
        requires
            count >= 1,
            sum <= count * UNIT,
    ;
    let half: u128 = sum / count / 2;
    match factor {
        Some(f) => {
            let fc: u128 = if f > FACTOR_ONE {
                FACTOR_ONE as u128
            } else {
                f as u128
            };
            assert(half * fc <= half * FACTOR_ONE) by (nonlinear_arith)
                requires
                    fc <= FACTOR_ONE,
            ;
            assert(half * fc / (FACTOR_ONE as int) <= half) by (nonlinear_arith)
                requires
                    half * fc <= half * FACTOR_ONE,
                    half >= 0,
            ;
            (half * fc / (FACTOR_ONE as u128)) as u64
        },
        None => half as u64,
    }
}

/// The bar for gathered samples, as `bar_spec` states it.
pub fn bar_at(g: &Geometry, sum_left: u128, sum_right: u128, count: u128, offset: i128) -> (r: Bar)
    requires
        count >= 1,
        sum_left <= count * UNIT,
        sum_right <= count * UNIT,
        -0x1_0000_0000_0000_0000_0000_0000 <= offset <= 0x1_0000_0000_0000_0000_0000_0000,
    ensures
        r == bar_spec(*g, sum_left as int, sum_right as int, count as int, offset as int),
{
    let hl = half_scaled_exec(sum_left, count, g.factor);
    let hr = half_scaled_exec(sum_right, count, g.factor);
    let h = g.height as u64;
    assert(hl * h <= (UNIT / 2) * u32::MAX) by (nonlinear_arith)
        requires
            hl <= UNIT / 2,
            h <= u32::MAX,
    ;
    assert(hr * h <= (UNIT / 2) * u32::MAX) by (nonlinear_arith)
        requires
            hr <= UNIT / 2,
            h <= u32::MAX,
    ;
    let left: u64 = hl * h;
    let right: u64 = hr * h;
    let full: u64 = h * UNIT;
    let center: u64 = full / 2;
    let y: u64 = if center < left {
        0
    } else {
        center - left
    };
    let total: u64 = left + right;
    let height: u64 = if total < BAR_SIZE * UNIT {
        BAR_SIZE * UNIT
    } else if total > full {
        full
    } else {
        total
    };
    let o: i128 = offset * (UNIT as i128);
    let zone = if g.rtl {
        if o > g.cursor_start as i128 {
            Zone::Played
        } else if o > g.cursor_end as i128 {
            Zone::Hover
        } else {
            Zone::Unplayed
        }
    } else {
        if o < g.cursor_start as i128 {
            Zone::Played
        } else if o < g.cursor_end as i128 {
            Zone::Hover
        } else {
            Zone::Unplayed
        }
    };
    let x: i128 = if g.rtl {
        offset - BAR_SIZE as i128
    } else {
        offset
    };
    Bar { x, y, height, zone }
}

/// Laying the same samples out right to left gives the same bars, in the
/// same order and of the same heights, each mirrored about the middle of the
/// width: a bar at `x` left to right stands at `width - BAR_SIZE - x`.
pub proof fn lemma_walk_mirror(peaks: Seq<PeakPair>, ltr: Geometry, rtl: Geometry)
    requires
        peaks.len() <= usize::MAX,
        !ltr.rtl,
        rtl.rtl,
        ltr.width == rtl.width,
        ltr.height == rtl.height,
        ltr.pitch_num == rtl.pitch_num,
        ltr.pitch_den == rtl.pitch_den,
        ltr.factor == rtl.factor,
    ensures
        ({
            let a = walk(peaks, ltr, 0, walk_start(ltr));
            let b = walk(peaks, rtl, 0, walk_start(rtl));
            &&& a.len() == b.len()
            &&& forall|k: int| 0 <= k < a.len() ==> (#[trigger] b[k]).x == ltr.width - BAR_SIZE - a[k].x
                && b[k].y == a[k].y && b[k].height == a[k].height
        }),
{
    lemma_walk_mirror_from(peaks, ltr, rtl, 0, walk_start(ltr), walk_start(rtl));
}

proof fn lemma_walk_mirror_from(
    peaks: Seq<PeakPair>,
    ltr: Geometry,
    rtl: Geometry,
    i: int,
    s1: WalkState,
    s2: WalkState,
)
    requires
        peaks.len() <= usize::MAX,
        !ltr.rtl,
        rtl.rtl,
        ltr.width == rtl.width,
        ltr.height == rtl.height,
        ltr.pitch_num == rtl.pitch_num,
        ltr.pitch_den == rtl.pitch_den,
        ltr.factor == rtl.factor,
        s1.acc == s2.acc,
        s1.count == s2.count,
        s1.sum_left == s2.sum_left,
        s1.sum_right == s2.sum_right,
        s2.offset == ltr.width - s1.offset,
        0 <= i,
        0 <= s1.offset <= BLOCK_SIZE * i,
    ensures
        ({
            let a = walk(peaks, ltr, i, s1);
            let b = walk(peaks, rtl, i, s2);
            &&& a.len() == b.len()
            &&& forall|k: int| 0 <= k < a.len() ==> (#[trigger] b[k]).x == ltr.width - BAR_SIZE - a[k].x
                && b[k].y == a[k].y && b[k].height == a[k].height
        }),
    decreases peaks.len() - i,
{
    if i < peaks.len() {
        let acc = s1.acc + ltr.pitch_num;
        let count = s1.count + 1;
        let sl = s1.sum_left + peaks[i].left;
        let sr = s1.sum_right + peaks[i].right;
        if acc > BAR_SIZE * ltr.pitch_den || i == peaks.len() - 1 {
            let n1 = WalkState {
                acc: acc - BAR_SIZE * ltr.pitch_den,
                count: 0,
                sum_left: 0,
                sum_right: 0,
                offset: s1.offset + BLOCK_SIZE,
            };
            let n2 = WalkState {
                acc: acc - BAR_SIZE * rtl.pitch_den,
                count: 0,
                sum_left: 0,
                sum_right: 0,
                offset: s2.offset - BLOCK_SIZE,
            };
            lemma_walk_mirror_from(peaks, ltr, rtl, i + 1, n1, n2);
            let a = walk(peaks, ltr, i, s1);
            let b = walk(peaks, rtl, i, s2);
            let ra = walk(peaks, ltr, i + 1, n1);
            let rb = walk(peaks, rtl, i + 1, n2);
            assert(a == seq![bar_spec(ltr, sl, sr, count, s1.offset)] + ra);
            assert(b == seq![bar_spec(rtl, sl, sr, count, s2.offset)] + rb);
            assert forall|k: int| 0 <= k < a.len() implies (#[trigger] b[k]).x == ltr.width - BAR_SIZE
                - a[k].x && b[k].y == a[k].y && b[k].height == a[k].height by {
                if k > 0 {
                    assert(a[k] == ra[k - 1]);
                    assert(b[k] == rb[k - 1]);
                }
            }
        } else {
            lemma_walk_mirror_from(
                peaks,
                ltr,
                rtl,
                i + 1,
                WalkState { acc, count, sum_left: sl, sum_right: sr, ..s1 },
                WalkState { acc, count, sum_left: sl, sum_right: sr, ..s2 },
            );
        }
    }
}

/// Lays out the bars for `peaks`, as `walk` states it.
pub fn layout_bars(peaks: &Vec<PeakPair>, g: &Geometry) -> (r: Vec<Bar>)
    requires
        peaks_in_range(peaks@),
        1 <= g.pitch_den <= 0x1_0000_0000_0000_0000_0000_0000,
        g.pitch_num <= u32::MAX,
    ensures
        r@ == walk(peaks@, *g, 0, walk_start(*g)),
{
    let n = peaks.len();
    let mut out: Vec<Bar> = Vec::new();
    let mut acc: i128 = 0;
    let mut count: u128 = 0;
    let mut sum_left: u128 = 0;
    let mut sum_right: u128 = 0;
    let start: i128 = if g.rtl {
        g.width as i128
    } else {
        0
    };
    let mut offset: i128 = start;
    let step: i128 = if g.rtl {
        -(BLOCK_SIZE as i128)
    } else {
        BLOCK_SIZE as i128
    };
    let pitch_num = g.pitch_num as i128;
    let bar_width = (BAR_SIZE as i128) * (g.pitch_den as i128);
    let mut i: usize = 0;
    while i < n
        invariant
            n == peaks.len(),
            i <= n,
            peaks_in_range(peaks@),
            1 <= g.pitch_den <= 0x1_0000_0000_0000_0000_0000_0000,
            g.pitch_num <= u32::MAX,
            pitch_num == g.pitch_num,
            bar_width == BAR_SIZE * g.pitch_den,
            step == (if g.rtl { -(BLOCK_SIZE as int) } else { BLOCK_SIZE as int }),
            start == walk_start(*g).offset,
            out@ + walk(
                peaks@,
                *g,
                i as int,
                WalkState {
                    acc: acc as int,
                    count: count as int,
                    sum_left: sum_left as int,
                    sum_right: sum_right as int,
                    offset: offset as int,
                },
            ) == walk(peaks@, *g, 0, walk_start(*g)),
            -(bar_width as int) <= acc <= i * 0x1_0000_0000,
            i < n ==> acc >= 0,
            count <= i,
            sum_left <= count * UNIT,
            sum_right <= count * UNIT,
            start - 4 * i <= offset <= start + 4 * i,
        decreases n - i,
    {
        let ghost st = WalkState {
            acc: acc as int,
            count: count as int,
            sum_left: sum_left as int,
            sum_right: sum_right as int,
            offset: offset as int,
        };
        let ghost before = out@;
        let p = peaks[i];
        assert(p.left <= UNIT && p.right <= UNIT);
        acc = acc + pitch_num;
        count = count + 1;
        sum_left = sum_left + p.left as u128;
        sum_right = sum_right + p.right as u128;
        if acc > bar_width || i == n - 1 {
            let bar = bar_at(g, sum_left, sum_right, count, offset);
            out.push(bar);
            acc = acc - bar_width;
            count = 0;
            sum_left = 0;
            sum_right = 0;
            offset = offset + step;
            assert(out@ == before + seq![bar]);
            assert(before + walk(peaks@, *g, i as int, st) == out@ + walk(
                peaks@,
                *g,
                i + 1,
                WalkState {
                    acc: acc as int,
                    count: count as int,
                    sum_left: sum_left as int,
                    sum_right: sum_right as int,
                    offset: offset as int,
                },
            ));
        }
        i = i + 1;
    }
    assert(walk(
        peaks@,
        *g,
        i as int,
        WalkState {
            acc: acc as int,
            count: count as int,
            sum_left: sum_left as int,
            sum_right: sum_right as int,
            offset: offset as int,
        },
    ) == Seq::<Bar>::empty());
    assert(out@ + Seq::<Bar>::empty() == out@);
    out
}

/// Left edges, in pixels, of the flat dashes drawn when there are no peaks:
/// one bar every block from the first gap on, while a dash ends a gap short of
/// the right edge.
pub open spec fn dashes_spec(width: int, r: Seq<i64>) -> bool {
    &&& forall|k: int| 0 <= k < r.len() ==> #[trigger] r[k] == SPACE_SIZE + BLOCK_SIZE * k
    &&& forall|k: int| 0 <= k < r.len() ==> #[trigger] r[k] < width - SPACE_SIZE
    &&& SPACE_SIZE + BLOCK_SIZE * r.len() >= width - SPACE_SIZE
}

pub fn placeholder_dashes(width: u32) -> (r: Vec<i64>)
    ensures
        dashes_spec(width as int, r@),
{
    let mut out: Vec<i64> = Vec::new();
    let mut offset: i64 = SPACE_SIZE as i64;
    let limit: i64 = width as i64 - SPACE_SIZE as i64;
    while offset < limit
        invariant
            limit == width - SPACE_SIZE,
            offset == SPACE_SIZE + BLOCK_SIZE * out@.len(),
            forall|k: int| 0 <= k < out@.len() ==> #[trigger] out@[k] == SPACE_SIZE + BLOCK_SIZE * k,
            forall|k: int| 0 <= k < out@.len() ==> #[trigger] out@[k] < limit,
            offset <= limit + BLOCK_SIZE,
        decreases limit + BLOCK_SIZE - offset,
    {
        out.push(offset);
        offset = offset + BLOCK_SIZE as i64;
    }
    out
}

/// An axis along which the host asks for a size.
#[derive(Clone, Copy, Debug, PartialEq, Eq, Structural)]
pub enum Orientation {
    Horizontal,
    Vertical,
}

/// What to draw on a frame.
#[derive(Clone, Debug)]
pub enum Drawing {
    /// The widget has no area: draw nothing.
    Nothing,
    /// No peaks: flat dashes at these left edges, in pixels, on the middle line.
    Dashes(Vec<i64>),
    /// The waveform bars.
    Bars(Vec<Bar>),
}

/// The layout parameters of a state with `n` peaks on a widget of the given size.
pub open spec fn geometry_spec(m: WaveformModel, n: int, width: int, height: int, rtl: bool) -> Geometry {
    let pitch = pitch_spec(width, n);
    let c = cursors_spec(width, rtl, m.position as int, m.hover);
    Geometry {
        width: width as u32,
        height: height as u32,
        rtl,
        pitch_num: pitch.0 as u128,
        pitch_den: pitch.1 as u128,
        factor: m.factor,
        cursor_start: c.0 as u64,
        cursor_end: c.1 as u64,
    }
}

impl WaveformView {
    /// The preferred size along `orientation`, in pixels.
    pub fn measure(&self, orientation: Orientation) -> (r: u32)
        ensures
            orientation == Orientation::Vertical ==> r == PREFERRED_HEIGHT,
            orientation == Orientation::Horizontal ==> r == preferred_width_spec(
                match self@.peaks {
                    Some(s) => Some(s.len()),
                    None => None,
                },
            ),
    {
        match orientation {
            Orientation::Vertical => PREFERRED_HEIGHT,
            Orientation::Horizontal => match self.peaks() {
                Some(v) => preferred_width(Some(v.len())),
                None => preferred_width(None),
            },
        }
    }

    /// What to draw on a widget of the given size: nothing when it has no
    /// area, dashes when there are no peaks, and otherwise the bars.
    pub fn snapshot(&self, width: u32, height: u32, dir: TextDirection) -> (r: Drawing)
        requires
            wf(self@),
        ensures
            width == 0 || height == 0 ==> r is Nothing,
            width > 0 && height > 0 && self@.peaks is None ==> (r matches Drawing::Dashes(d)
                && dashes_spec(width as int, d@)),
            width > 0 && height > 0 && self@.peaks is Some ==> (r matches Drawing::Bars(b) && ({
                let s = self@.peaks.unwrap();
                let g = geometry_spec(self@, s.len() as int, width as int, height as int, dir == TextDirection::RightToLeft);
                b@ == walk(s, g, 0, walk_start(g))
            })),
    {
        if width == 0 || height == 0 {
            return Drawing::Nothing;
        }
        let rtl = match dir {
            TextDirection::RightToLeft => true,
            TextDirection::LeftToRight => false,
        };
        match self.peaks() {
            None => Drawing::Dashes(placeholder_dashes(width)),
            Some(v) => {
                let pitch = pixels_per_sample(width, v.len());
                let c = cursors(width, rtl, self.position(), self.hover_position());
                let g = Geometry {
                    width,
                    height,
                    rtl,
                    pitch_num: pitch.0,
                    pitch_den: pitch.1,
                    factor: self.factor(),
                    cursor_start: c.0,
                    cursor_end: c.1,
                };
                Drawing::Bars(layout_bars(v, &g))
            },
        }
    }
}

} // verus!
