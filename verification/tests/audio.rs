use std::sync::atomic::Ordering;
use std::sync::Arc;
use voicelink::audio::{
    fill_output, occupancy_after_pop, occupancy_after_push, pick_common_format,
    pick_default_format, spread_frame, Audio, AudioError, DefaultFormat, FormatRange,
    SampleFormat, PREFERRED_RATES,
};
use voicelink::ring::{hear, pop_frame, push_each, push_until_full};

fn range(format: SampleFormat, channels: u16, min_rate: u32, max_rate: u32) -> FormatRange {
    FormatRange { format, channels, min_rate, max_rate }
}

const F32: SampleFormat = SampleFormat::F32;

#[test]
fn the_first_common_preference_is_picked() {
    let input = [range(F32, 1, 8_000, 48_000)];
    let output = [range(F32, 2, 8_000, 48_000), range(F32, 6, 8_000, 48_000)];
    let picked = pick_common_format(&input, &output, &PREFERRED_RATES, F32);
    assert_eq!(picked, Some((16_000, 2)));
}

#[test]
fn the_second_preference_serves_where_the_first_does_not() {
    let input = [range(F32, 1, 44_100, 96_000)];
    let output = [range(F32, 1, 8_000, 16_000), range(F32, 6, 48_000, 48_000)];
    let picked = pick_common_format(&input, &output, &PREFERRED_RATES, F32);
    assert_eq!(picked, Some((48_000, 6)));
}

#[test]
fn other_layouts_and_deaf_inputs_do_not_count() {
    let wide = range(F32, 1, 8_000, 48_000);
    let other = range(SampleFormat::I16, 1, 8_000, 48_000);
    let deaf = range(F32, 0, 8_000, 48_000);
    assert_eq!(pick_common_format(&[other], &[wide], &PREFERRED_RATES, F32), None);
    assert_eq!(pick_common_format(&[wide], &[other], &PREFERRED_RATES, F32), None);
    assert_eq!(pick_common_format(&[deaf], &[wide], &PREFERRED_RATES, F32), None);
    assert_eq!(pick_common_format(&[wide], &[deaf], &PREFERRED_RATES, F32), Some((16_000, 0)));
    assert_eq!(pick_common_format(&[wide], &[wide], &[], F32), None);
    assert_eq!(pick_common_format(&[wide], &[wide], &[50_000], F32), None);
}

#[test]
fn the_default_serves_where_the_input_can_follow() {
    let input = [range(F32, 1, 44_100, 44_100)];
    let fits = DefaultFormat { format: F32, channels: 2, rate: 44_100 };
    assert_eq!(pick_default_format(&input, F32, fits), Ok((44_100, 2)));
    let fast = DefaultFormat { format: F32, channels: 2, rate: 96_000 };
    assert_eq!(pick_default_format(&input, F32, fast), Err(AudioError::NoCommonFormat));
    let other = DefaultFormat { format: SampleFormat::I16, channels: 2, rate: 44_100 };
    assert_eq!(pick_default_format(&input, F32, other), Err(AudioError::NoCommonFormat));
}

#[test]
fn geometry_follows_the_rate() {
    let a = Audio::new(16_000, 2);
    assert_eq!(a.sample_rate(), 16_000);
    assert_eq!(a.out_channels(), 2);
    assert_eq!(a.frame_samples(), 320);
    assert_eq!(a.playback_capacity(), 80_000);
    assert_eq!(Audio::new(48_000, 1).frame_samples(), 960);
}

#[test]
fn every_half_is_handed_out_once() {
    let mut a = Audio::new(100, 1);
    assert!(a.take_capture_consumer().is_ok());
    assert!(a.take_playback_producer().is_ok());
    assert!(a.start_capture().is_ok());
    assert!(a.start_playback().is_ok());
    assert_eq!(a.take_capture_consumer().err(), Some(AudioError::CaptureConsumerTaken));
    assert_eq!(a.take_playback_producer().err(), Some(AudioError::PlaybackProducerTaken));
    assert_eq!(a.start_capture().err(), Some(AudioError::CaptureStarted));
    assert_eq!(a.start_playback().err(), Some(AudioError::PlaybackStarted));
}

#[test]
fn errors_have_their_words() {
    assert_eq!(AudioError::CaptureConsumerTaken.message(), "capture consumer already taken");
    assert_eq!(AudioError::PlaybackProducerTaken.message(), "playback producer already taken");
    assert_eq!(AudioError::CaptureStarted.message(), "capture already started");
    assert_eq!(AudioError::PlaybackStarted.message(), "playback already started");
    assert_eq!(
        AudioError::NoCommonFormat.message(),
        "Failed to find common f32 format between input and output (try a different device/rate)"
    );
}

#[test]
fn counters_start_at_zero_and_are_shared() {
    let a = Audio::new(100, 1);
    assert_eq!(a.capture_occupancy_arc().load(Ordering::SeqCst), 0);
    assert_eq!(a.playback_occupancy_arc().load(Ordering::SeqCst), 0);
    a.playback_occupancy_arc().store(5, Ordering::SeqCst);
    assert_eq!(a.playback_occupancy_arc().load(Ordering::SeqCst), 5);
    assert_eq!(a.capture_occupancy_arc().load(Ordering::SeqCst), 0);
    assert!(Arc::ptr_eq(&a.capture_occupancy_arc(), &a.capture_occupancy_arc()));
    assert!(!Arc::ptr_eq(&a.capture_occupancy_arc(), &a.playback_occupancy_arc()));
}

#[test]
fn samples_pass_the_capture_ring_in_order() {
    let mut a = Audio::new(2, 1);
    let mut prod = a.start_capture().unwrap();
    let mut cons = a.take_capture_consumer().unwrap();
    let bits: Vec<u32> = [0.25f32, -1.0, 0.5].iter().map(|s| s.to_bits()).collect();
    assert_eq!(push_until_full(&mut prod, &bits), 3);
    let (frame, popped) = pop_frame(&mut cons, 5);
    assert_eq!(popped, 3);
    let heard: Vec<f32> = frame.into_iter().map(f32::from_bits).collect();
    assert_eq!(heard, vec![0.25, -1.0, 0.5, 0.0, 0.0]);
}

#[test]
fn a_ring_takes_what_it_was_made_for_and_no_more() {
    let mut a = Audio::new(1, 1);
    let mut prod = a.start_capture().unwrap();
    let mut cons = a.take_capture_consumer().unwrap();
    assert_eq!(push_until_full(&mut prod, &[1, 2, 3, 4, 5, 6, 7]), 5);
    assert_eq!(push_until_full(&mut prod, &[8]), 0);
    assert_eq!(pop_frame(&mut cons, 2), (vec![1, 2], 2));
    assert_eq!(push_until_full(&mut prod, &[9, 10, 11]), 2);
    assert_eq!(pop_frame(&mut cons, 6), (vec![3, 4, 5, 9, 10, 0], 5));
}

#[test]
fn every_sample_is_offered_to_the_playback_ring() {
    let mut a = Audio::new(1, 1);
    let mut prod = a.take_playback_producer().unwrap();
    let mut cons = a.start_playback().unwrap();
    assert_eq!(push_each(&mut prod, &[1, 2, 3]), 3);
    assert_eq!(push_each(&mut prod, &[4, 5, 6, 7]), 2);
    assert_eq!(push_each(&mut prod, &[]), 0);
    assert_eq!(pop_frame(&mut cons, 5), (vec![1, 2, 3, 4, 5], 5));
}

#[test]
fn output_repeats_each_sample_in_every_channel() {
    let mut a = Audio::new(10, 2);
    let mut prod = a.take_playback_producer().unwrap();
    let mut cons = a.start_playback().unwrap();
    push_each(&mut prod, &[7, 8, 9]);
    assert_eq!(fill_output(&mut cons, 5, 2), (vec![7, 7, 8, 8], 2));
    assert_eq!(fill_output(&mut cons, 6, 3), (vec![9, 9, 9, 0, 0, 0], 1));
    assert_eq!(fill_output(&mut cons, 2, 3), (vec![], 0));
    assert_eq!(fill_output(&mut cons, 2, 1), (vec![0, 0], 0));
}

#[test]
fn occupancy_is_clamped() {
    assert_eq!(occupancy_after_push(3, 4, 10), 7);
    assert_eq!(occupancy_after_push(8, 4, 10), 10);
    assert_eq!(occupancy_after_push(0, 0, 0), 0);
    assert_eq!(occupancy_after_pop(7, 4), 3);
    assert_eq!(occupancy_after_pop(3, 4), 0);
    assert_eq!(occupancy_after_pop(occupancy_after_push(2, 5, 10), 5), 2);
}

#[test]
fn a_missing_sample_is_heard_as_silence() {
    assert_eq!(hear(&[Some(4), None, Some(6), Some(0)]), (vec![4, 0, 6, 0], 3));
    assert_eq!(hear(&[None, None]), (vec![0, 0], 0));
    assert_eq!(hear(&[]), (vec![], 0));
}

#[test]
fn a_frame_is_spread_over_the_channels() {
    assert_eq!(spread_frame(&[1, 2], 3), vec![1, 1, 1, 2, 2, 2]);
    assert_eq!(spread_frame(&[1, 2], 1), vec![1, 2]);
    assert_eq!(spread_frame(&[1, 2], 0), Vec::<u32>::new());
    assert_eq!(spread_frame(&[], 2), Vec::<u32>::new());
}

#[test]
fn each_direction_has_a_ring_of_its_own() {
    let mut a = Audio::new(2, 1);
    let mut from_microphone = a.start_capture().unwrap();
    let mut to_network = a.take_capture_consumer().unwrap();
    let mut from_network = a.take_playback_producer().unwrap();
    let mut to_speaker = a.start_playback().unwrap();
    assert_eq!(push_until_full(&mut from_microphone, &[1, 2]), 2);
    assert_eq!(push_each(&mut from_network, &[3, 4, 5]), 3);
    assert_eq!(pop_frame(&mut to_network, 4), (vec![1, 2, 0, 0], 2));
    assert_eq!(fill_output(&mut to_speaker, 4, 1), (vec![3, 4, 5, 0], 3));
}
