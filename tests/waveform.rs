use axuralis::animation::{ease_out_cubic, ANIMATION_USECS, FACTOR_ONE};
use axuralis::fixed::UNIT;
use axuralis::input::{Arrow, TextDirection};
use axuralis::layout::{
    pixels_per_sample, placeholder_dashes, preferred_width, Drawing, Orientation, Zone,
};
use axuralis::peaks::{normalize_peaks, PeakPair};
use axuralis::waveform::{Request, WaveformView};

fn bars_of(d: Drawing) -> Vec<axuralis::layout::Bar> {
    match d {
        Drawing::Bars(b) => b,
        other => panic!("expected bars, got {:?}", other),
    }
}

#[test]
fn normalize_divides_each_channel_by_its_own_max() {
    let n = normalize_peaks(&vec![(1, 2), (2, 4), (4, 8)]);
    assert_eq!(
        n,
        vec![
            PeakPair::new(250_000, 250_000),
            PeakPair::new(500_000, 500_000),
            PeakPair::new(1_000_000, 1_000_000),
        ]
    );
}

#[test]
fn normalize_silent_channel_stays_zero() {
    let n = normalize_peaks(&vec![(0, 3), (0, 1), (0, 0)]);
    assert_eq!(n.iter().map(|p| p.left).collect::<Vec<_>>(), vec![0, 0, 0]);
    assert_eq!(n.iter().map(|p| p.right).collect::<Vec<_>>(), vec![1_000_000, 333_333, 0]);
}

#[test]
fn normalize_empty_is_empty() {
    assert!(normalize_peaks(&vec![]).is_empty());
}

#[test]
fn normalize_max_reaches_one_and_nothing_exceeds_it() {
    let raw = vec![(7, 1), (u32::MAX, 9), (3, 9), (0, 2)];
    let n = normalize_peaks(&raw);
    assert!(n.iter().all(|p| p.left <= UNIT && p.right <= UNIT));
    assert_eq!(n.iter().map(|p| p.left).max(), Some(UNIT));
    assert_eq!(n.iter().map(|p| p.right).max(), Some(UNIT));
    assert_eq!(n[1].left, UNIT);
    assert_eq!(n[2].right, UNIT);
}

#[test]
fn set_position_clamps_to_unit_range() {
    let mut w = WaveformView::new();
    assert_eq!(w.set_position(-5), 0);
    assert_eq!(w.position(), 0);
    assert_eq!(w.set_position(2_000_000), UNIT);
    assert_eq!(w.position(), UNIT);
    assert_eq!(w.set_position(300_000), 300_000);
    assert_eq!(w.position(), 300_000);
    assert_eq!(w.set_position(i64::MIN), 0);
    assert_eq!(w.set_position(i64::MAX), UNIT);
}

#[test]
fn set_peaks_without_animation_shows_at_once() {
    let mut w = WaveformView::new();
    w.set_peaks(Some(vec![(1, 1), (2, 2)]), false);
    assert!(!w.is_ticking());
    assert!(!w.has_pending_peaks());
    assert_eq!(w.peaks().unwrap().len(), 2);
    assert_eq!(w.measure(Orientation::Horizontal), 8);
}

#[test]
fn set_peaks_twice_keeps_one_animation() {
    let mut w = WaveformView::new();
    w.set_peaks(Some(vec![(1, 1)]), true);
    assert_eq!(w.tick(1_000).request, Request::Nothing);
    w.set_peaks(Some(vec![(1, 1), (2, 2), (4, 4)]), true);
    assert!(w.is_ticking());
    assert!(w.has_pending_peaks());
    assert_eq!(w.factor(), None);
    // the first call's start time is gone: the next frame starts anew
    let step = w.tick(900_000);
    assert!(step.keep_ticking);
    assert_eq!(step.request, Request::Nothing);
    // nothing showed yet, so the pending peaks swap in at once
    let step = w.tick(900_001);
    assert_eq!(step.request, Request::Resize);
    assert_eq!(w.peaks().unwrap().len(), 3);
    assert!(!w.has_pending_peaks());
}

#[test]
fn set_peaks_without_animation_cancels_running_one() {
    let mut w = WaveformView::new();
    w.set_peaks(Some(vec![(1, 1)]), true);
    w.tick(10);
    w.set_peaks(Some(vec![(1, 1), (1, 1)]), false);
    assert!(!w.is_ticking());
    assert!(!w.has_pending_peaks());
    assert_eq!(w.factor(), None);
    assert_eq!(w.peaks().unwrap().len(), 2);
}

#[test]
fn ease_out_cubic_values() {
    assert_eq!(ease_out_cubic(0), 0);
    assert_eq!(ease_out_cubic(ANIMATION_USECS), FACTOR_ONE);
    assert_eq!(ease_out_cubic(125_000), 13_671_875_000_000_000);
    assert_eq!(FACTOR_ONE, 250_000u64 * 250_000 * 250_000);
}

#[test]
fn fade_out_then_swap_then_fade_in() {
    let mut w = WaveformView::new();
    w.set_peaks(Some(vec![(1, 1)]), false);
    w.set_peaks(Some(vec![(2, 2), (1, 1)]), true);
    assert_eq!(w.tick(1_000).request, Request::Nothing);
    let step = w.tick(126_000);
    assert_eq!(step.request, Request::Redraw);
    assert_eq!(w.factor(), Some(13_671_875_000_000_000));
    let step = w.tick(251_000);
    assert_eq!(step.request, Request::Redraw);
    assert_eq!(w.factor(), Some(0));
    let step = w.tick(251_001);
    assert_eq!(step.request, Request::Nothing);
    assert!(w.peaks().is_none());
    let step = w.tick(251_002);
    assert_eq!(step.request, Request::Resize);
    assert_eq!(w.peaks().unwrap().len(), 2);
    assert_eq!(w.tick(300_000).request, Request::Nothing);
    let step = w.tick(425_000);
    assert_eq!(step.request, Request::Redraw);
    assert_eq!(w.factor(), Some(13_671_875_000_000_000));
    let step = w.tick(550_000);
    assert!(!step.keep_ticking);
    assert_eq!(step.request, Request::Resize);
    assert!(!w.is_ticking());
    assert_eq!(w.factor(), None);
}

#[test]
fn clock_going_backwards_skips_the_frame() {
    let mut w = WaveformView::new();
    w.set_peaks(Some(vec![(1, 1)]), false);
    w.set_peaks(None, true);
    w.tick(5_000);
    let step = w.tick(4_000);
    assert!(step.keep_ticking);
    assert_eq!(step.request, Request::Nothing);
    assert!(w.peaks().is_some());
    assert_eq!(w.factor(), None);
}

#[test]
fn animation_settles_to_idle() {
    let mut w = WaveformView::new();
    w.set_peaks(Some(vec![(3, 1)]), false);
    w.set_peaks(Some(vec![(1, 2), (2, 1)]), true);
    let mut t: u64 = 100;
    let mut frames = 0;
    while w.is_ticking() {
        w.tick(t);
        t += ANIMATION_USECS + 1;
        frames += 1;
    }
    assert!(frames <= 5);
    assert!(!w.has_pending_peaks());
    assert_eq!(w.factor(), None);
    assert_eq!(w.peaks().unwrap().len(), 2);
}

#[test]
fn clearing_peaks_with_animation_fades_out_and_ends_idle() {
    let mut w = WaveformView::new();
    w.set_peaks(Some(vec![(1, 2), (2, 4), (4, 8)]), false);
    assert_eq!(w.measure(Orientation::Horizontal), 12);
    w.set_peaks(None, true);
    for t in [0u64, 300_000, 600_000, 900_000, 1_200_000] {
        if w.is_ticking() {
            w.tick(t);
        }
    }
    assert!(!w.is_ticking());
    assert!(w.peaks().is_none());
    assert!(!w.has_pending_peaks());
    assert_eq!(w.measure(Orientation::Horizontal), 256);
}

#[test]
fn preferred_sizes() {
    assert_eq!(preferred_width(None), 256);
    assert_eq!(preferred_width(Some(0)), 0);
    assert_eq!(preferred_width(Some(30)), 120);
    assert_eq!(preferred_width(Some(64)), 256);
    assert_eq!(preferred_width(Some(usize::MAX)), 256);
    let w = WaveformView::new();
    assert_eq!(w.measure(Orientation::Vertical), 48);
    assert_eq!(w.measure(Orientation::Horizontal), 256);
}

#[test]
fn seek_position_follows_text_direction() {
    let w = WaveformView::new();
    assert_eq!(w.seek_to_coord(25, 100, TextDirection::LeftToRight), Some(250_000));
    assert_eq!(w.seek_to_coord(25, 100, TextDirection::RightToLeft), Some(750_000));
    assert_eq!(w.seek_to_coord(1, 3, TextDirection::LeftToRight), Some(333_333));
    assert_eq!(w.seek_to_coord(1, 3, TextDirection::RightToLeft), Some(666_667));
    assert_eq!(w.seek_to_coord(-10, 100, TextDirection::LeftToRight), Some(-100_000));
    assert_eq!(w.seek_to_coord(150, 100, TextDirection::RightToLeft), Some(-500_000));
    assert_eq!(w.seek_to_coord(10, 0, TextDirection::LeftToRight), None);
}

#[test]
fn hover_position_is_clamped_and_cleared() {
    let mut w = WaveformView::new();
    w.hover_to_coord(50, 200);
    assert_eq!(w.hover_position(), Some(250_000));
    w.hover_to_coord(300, 200);
    assert_eq!(w.hover_position(), Some(UNIT));
    w.hover_to_coord(-3, 200);
    assert_eq!(w.hover_position(), Some(0));
    w.hover_to_coord(10, 0);
    assert_eq!(w.hover_position(), Some(0));
    w.set_hover_position(None);
    assert_eq!(w.hover_position(), None);
}

#[test]
fn arrow_keys_step_by_a_twentieth() {
    let mut w = WaveformView::new();
    assert_eq!(w.key_seek(Arrow::Left), -50_000);
    assert_eq!(w.key_seek(Arrow::Right), 50_000);
    w.set_position(500_000);
    assert_eq!(w.key_seek(Arrow::Left), 450_000);
    assert_eq!(w.key_seek(Arrow::Right), 550_000);
}

#[test]
fn focus_stays_while_there_is_room() {
    let mut w = WaveformView::new();
    assert!(!w.focus_move(Arrow::Left));
    assert!(w.focus_move(Arrow::Right));
    w.set_position(2_000_000);
    assert!(w.focus_move(Arrow::Left));
    assert!(!w.focus_move(Arrow::Right));
}

#[test]
fn pitch_shrinks_when_samples_do_not_fit() {
    assert_eq!(pixels_per_sample(100, 30), (100, 60));
    assert_eq!(pixels_per_sample(121, 30), (4, 1));
    assert_eq!(pixels_per_sample(120, 30), (4, 1));
    assert_eq!(pixels_per_sample(119, 30), (119, 60));
    assert_eq!(pixels_per_sample(100, 0), (4, 1));
}

#[test]
fn squeezed_samples_are_averaged_into_fewer_bars() {
    let mut w = WaveformView::new();
    w.set_peaks(Some(vec![(1, 1); 30]), false);
    let bars = bars_of(w.snapshot(100, 48, TextDirection::LeftToRight));
    assert_eq!(bars.len(), 25);
    assert!(bars.len() < 30);
    for (k, b) in bars.iter().enumerate() {
        assert_eq!(b.x, 4 * k as i128);
        assert_eq!(b.height, 48 * UNIT);
        assert_eq!(b.y, 0);
    }
}

#[test]
fn samples_that_exactly_fit_keep_the_natural_pitch() {
    let mut w = WaveformView::new();
    w.set_peaks(Some(vec![(1, 1), (1, 1)]), false);
    let bars = bars_of(w.snapshot(8, 48, TextDirection::LeftToRight));
    assert_eq!(bars.iter().map(|b| b.x).collect::<Vec<_>>(), vec![0, 4]);
}

#[test]
fn left_channel_rises_above_the_middle_line() {
    let mut w = WaveformView::new();
    w.set_peaks(Some(vec![(1, 0)]), false);
    let bars = bars_of(w.snapshot(10, 48, TextDirection::LeftToRight));
    assert_eq!(bars[0].y, 0);
    assert_eq!(bars[0].height, 24 * UNIT);
    w.set_peaks(Some(vec![(0, 1)]), false);
    let bars = bars_of(w.snapshot(10, 48, TextDirection::LeftToRight));
    assert_eq!(bars[0].y, 24 * UNIT);
    assert_eq!(bars[0].height, 24 * UNIT);
}

#[test]
fn frequent_frames_settle_within_the_bound() {
    let d: u64 = 16_667;
    let bound = 2 * (ANIMATION_USECS / d) + 5;
    for old in [None, Some(vec![(5, 5), (1, 2)])] {
        for new in [None, Some(vec![(1, 2), (2, 4), (4, 8)])] {
            let mut w = WaveformView::new();
            w.set_peaks(old.clone(), false);
            w.set_peaks(new.clone(), true);
            let mut ticks = 0;
            let mut t: u64 = 1_000;
            while w.is_ticking() {
                w.tick(t);
                t += d;
                ticks += 1;
            }
            assert!(ticks <= bound, "{} ticks", ticks);
            assert_eq!(w.peaks().map(|p| p.len()), new.as_ref().map(|p| p.len()));
            assert!(!w.has_pending_peaks());
            assert_eq!(w.factor(), None);
        }
    }
}

#[test]
fn bars_in_natural_pitch() {
    let mut w = WaveformView::new();
    w.set_peaks(Some(vec![(1, 2), (2, 4), (4, 8)]), false);
    let bars = bars_of(w.snapshot(100, 48, TextDirection::LeftToRight));
    assert_eq!(bars.len(), 3);
    assert_eq!(bars.iter().map(|b| b.x).collect::<Vec<_>>(), vec![0, 4, 8]);
    assert_eq!(bars[0].height, 12_000_000);
    assert_eq!(bars[0].y, 18_000_000);
    assert_eq!(bars[1].height, 24_000_000);
    assert_eq!(bars[2].height, 48_000_000);
    assert_eq!(bars[2].y, 0);
    assert!(bars.iter().all(|b| b.zone == Zone::Unplayed));
}

#[test]
fn tiny_bars_keep_two_pixels() {
    let mut w = WaveformView::new();
    w.set_peaks(Some(vec![(1, 1), (1000, 1000)]), false);
    let bars = bars_of(w.snapshot(100, 48, TextDirection::LeftToRight));
    assert_eq!(bars[0].height, 2 * UNIT);
    assert_eq!(bars[0].y, 24 * UNIT - 24_000);
}

#[test]
fn bars_mirror_in_right_to_left() {
    let mut w = WaveformView::new();
    w.set_peaks(Some(vec![(1, 1), (1, 1), (1, 1)]), false);
    w.set_position(UNIT as i64);
    let bars = bars_of(w.snapshot(100, 48, TextDirection::RightToLeft));
    assert_eq!(bars.iter().map(|b| b.x).collect::<Vec<_>>(), vec![98, 94, 90]);
    // position one counts from the right edge, so its cursor is at x = 0
    assert!(bars.iter().all(|b| b.zone == Zone::Played));
}

#[test]
fn zones_split_by_position_and_hover() {
    let mut w = WaveformView::new();
    w.set_peaks(Some(vec![(1, 1); 10]), false);
    w.set_position(200_000);
    w.hover_to_coord(60, 100);
    let bars = bars_of(w.snapshot(100, 48, TextDirection::LeftToRight));
    let zones: Vec<Zone> = bars.iter().map(|b| b.zone).collect();
    // bars at x = 0, 4, ..., 36; position at 20 px, hover at 60 px
    assert_eq!(zones[0], Zone::Played);
    assert_eq!(zones[4], Zone::Played);
    assert_eq!(zones[5], Zone::Hover);
    assert_eq!(zones[9], Zone::Hover);
    w.hover_to_coord(10, 100);
    let bars = bars_of(w.snapshot(100, 48, TextDirection::LeftToRight));
    assert_eq!(bars[2].zone, Zone::Played);
    assert_eq!(bars[3].zone, Zone::Hover);
    assert_eq!(bars[5].zone, Zone::Unplayed);
}

#[test]
fn animation_factor_scales_bars() {
    let mut w = WaveformView::new();
    w.set_peaks(Some(vec![(1, 1)]), true);
    w.tick(0);
    w.tick(1);
    assert!(w.peaks().is_some());
    w.tick(2);
    w.tick(125_002);
    assert_eq!(w.factor(), Some(13_671_875_000_000_000));
    let bars = bars_of(w.snapshot(10, 48, TextDirection::LeftToRight));
    // half of one, times seven eighths, times 48 px, twice
    assert_eq!(bars[0].height, 42 * UNIT);
}

#[test]
fn placeholder_dashes_without_peaks() {
    assert_eq!(placeholder_dashes(20), vec![2, 6, 10, 14]);
    assert_eq!(placeholder_dashes(19), vec![2, 6, 10, 14]);
    assert_eq!(placeholder_dashes(18), vec![2, 6, 10, 14]);
    assert_eq!(placeholder_dashes(16), vec![2, 6, 10]);
    assert!(placeholder_dashes(4).is_empty());
    let w = WaveformView::new();
    match w.snapshot(20, 48, TextDirection::LeftToRight) {
        Drawing::Dashes(d) => assert_eq!(d, vec![2, 6, 10, 14]),
        other => panic!("expected dashes, got {:?}", other),
    }
}

#[test]
fn nothing_drawn_without_area() {
    let w = WaveformView::new();
    assert!(matches!(w.snapshot(0, 48, TextDirection::LeftToRight), Drawing::Nothing));
    assert!(matches!(w.snapshot(20, 0, TextDirection::LeftToRight), Drawing::Nothing));
}
