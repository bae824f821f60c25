use voicelink::header::Header;
use voicelink::jitter::{playout_delay_ms, FrameTiming, JitterBuffer, Stats};

fn head(seq: u32) -> Header {
    Header { seq, ts_ms: 1000 + seq as u64, n_samples: 2, sample_rate: 16_000, fmt: 1 }
}

fn frame(seq: u32) -> Vec<i16> {
    vec![seq as i16, -(seq as i16)]
}

fn filled(initial: u32, seqs: &[u32]) -> JitterBuffer {
    let mut jb = JitterBuffer::new(initial);
    for &s in seqs {
        jb.push(head(s), frame(s));
    }
    jb
}

#[test]
fn a_new_buffer_has_counted_nothing() {
    assert_eq!(JitterBuffer::new(3).stats(), Stats::default());
    assert_eq!(
        Stats::default(),
        Stats { received: 0, played: 0, dropped_late: 0, reordered: 0, plc_frames: 0 }
    );
}

#[test]
fn an_empty_buffer_plays_silence() {
    let mut jb = JitterBuffer::new(0);
    for _ in 0..3 {
        let p = jb.pop_for_playout();
        assert_eq!(p.frame, vec![0i16; 320]);
        assert_eq!(p.timing, None);
    }
    let s = jb.stats();
    assert_eq!((s.played, s.plc_frames), (3, 3));
}

#[test]
fn three_frames_start_the_playout() {
    let mut jb = filled(5, &[5, 6, 7]);
    let p = jb.pop_for_playout();
    assert_eq!(p.frame, frame(5));
    assert_eq!(p.timing, Some(FrameTiming { ts_ms: 1005, first: true }));
    let p = jb.pop_for_playout();
    assert_eq!(p.frame, frame(6));
    assert_eq!(p.timing, Some(FrameTiming { ts_ms: 1006, first: false }));
}

#[test]
fn two_frames_are_too_few_and_the_first_is_skipped() {
    let mut jb = filled(0, &[0, 1]);
    assert_eq!(jb.pop_for_playout().frame, vec![0i16; 320]);
    assert_eq!(jb.pop_for_playout().frame, frame(1));
    assert_eq!(jb.pop_for_playout().frame, frame(1));
    assert_eq!(jb.stats().plc_frames, 2);
}

#[test]
fn frames_are_put_back_in_order() {
    let mut a = filled(0, &[2, 0, 3, 1]);
    let mut b = filled(0, &[0, 1, 2, 3]);
    for k in 0..4 {
        assert_eq!(a.pop_for_playout().frame, frame(k));
        assert_eq!(b.pop_for_playout().frame, frame(k));
    }
}

#[test]
fn a_run_is_played_in_order_through_the_wrap() {
    let start = u32::MAX - 1;
    let mut jb = filled(start, &[0, u32::MAX, start, 1]);
    for k in 0..4u32 {
        assert_eq!(jb.pop_for_playout().frame, frame(start.wrapping_add(k)));
    }
}

#[test]
fn a_gap_repeats_the_last_frame() {
    let mut jb = filled(0, &[0, 1, 3]);
    assert_eq!(jb.pop_for_playout().frame, frame(0));
    assert_eq!(jb.pop_for_playout().frame, frame(1));
    let p = jb.pop_for_playout();
    assert_eq!(p.frame, frame(1));
    assert_eq!(p.timing, None);
    assert_eq!(jb.pop_for_playout().frame, frame(3));
    assert_eq!(jb.pop_for_playout().frame, frame(3));
    let s = jb.stats();
    assert_eq!((s.played, s.plc_frames), (5, 2));
}

#[test]
fn a_late_frame_is_dropped() {
    let mut jb = filled(0, &[0, 1, 2]);
    jb.pop_for_playout();
    jb.push(head(0), vec![9, 9]);
    let s = jb.stats();
    assert_eq!((s.received, s.dropped_late), (4, 1));
    assert_eq!(jb.pop_for_playout().frame, frame(1));
}

#[test]
fn a_duplicate_waits_once() {
    let mut jb = filled(0, &[0, 1, 2, 1]);
    for k in 0..3 {
        assert_eq!(jb.pop_for_playout().frame, frame(k));
    }
    assert_eq!(jb.pop_for_playout().frame, frame(2));
    assert_eq!(jb.stats().received, 4);
}

#[test]
fn a_leap_is_counted() {
    let jb = filled(0, &[0, 1, 3]);
    assert_eq!(jb.stats().reordered, 1);
    let jb = filled(0, &[0, 1, 2, 1]);
    assert_eq!(jb.stats().reordered, 0);
    let jb = filled(0, &[9]);
    assert_eq!(jb.stats().reordered, 0);
}

#[test]
fn a_full_window_loses_its_highest_frame() {
    let mut jb = filled(0, &[0, 1, 2, 3, 4, 5, 6, 7]);
    for k in 0..6 {
        assert_eq!(jb.pop_for_playout().frame, frame(k));
    }
    assert_eq!(jb.pop_for_playout().frame, frame(5));
    assert_eq!(jb.pop_for_playout().frame, frame(7));
}

#[test]
fn a_duplicate_in_a_full_window_still_costs_the_highest() {
    let mut jb = filled(0, &[0, 1, 2, 3, 4, 5, 6, 0]);
    for k in 0..6 {
        assert_eq!(jb.pop_for_playout().frame, frame(k));
    }
    assert_eq!(jb.pop_for_playout().timing, None);
}

#[test]
fn a_burst_of_late_frames_deepens_the_buffer() {
    let mut jb = JitterBuffer::new(1000);
    for k in 0..50 {
        jb.push(head(k), frame(k));
    }
    for k in 1000..1003 {
        jb.push(head(k), frame(k));
    }
    assert_eq!(jb.stats().dropped_late, 50);
    assert_eq!(jb.pop_for_playout().timing, None);

    let mut jb = JitterBuffer::new(1000);
    for k in 0..49 {
        jb.push(head(k), frame(k));
    }
    for k in 1000..1003 {
        jb.push(head(k), frame(k));
    }
    assert_eq!(jb.pop_for_playout().frame, frame(1000));
}

#[test]
fn the_late_queue_is_bounded_and_counts_on() {
    let mut jb = JitterBuffer::new(1000);
    for k in 0..400 {
        jb.push(head(k), frame(k));
    }
    let s = jb.stats();
    assert_eq!((s.received, s.dropped_late), (400, 400));
    for k in 1000..1003 {
        jb.push(head(k), frame(k));
    }
    assert_eq!(jb.pop_for_playout().timing, None);
}

#[test]
fn counters_add_up() {
    let mut jb = filled(0, &[0, 1, 2, 5, 6]);
    for _ in 0..9 {
        jb.pop_for_playout();
    }
    jb.push(head(3), frame(3));
    let s = jb.stats();
    assert_eq!(s.received, 6);
    assert_eq!(s.played, 9);
    assert_eq!(s.plc_frames, 4);
    assert_eq!(s.dropped_late, 1);
    assert_eq!(s.reordered, 1);
    assert!(s.played - s.plc_frames + s.dropped_late <= s.received);
}

#[test]
fn the_delay_is_never_negative() {
    assert_eq!(playout_delay_ms(1500, 1000), 500);
    assert_eq!(playout_delay_ms(1000, 1000), 0);
    assert_eq!(playout_delay_ms(900, 1000), 0);
}
