use wapplatalk::audio::{
    capture_step, is_silence, pcm_samples, process_capture_frame, sample_bytes, CaptureAction,
    CaptureState,
};

fn frame(level: i16) -> Vec<i16> {
    vec![level; 1920]
}

#[test]
fn rms_exactly_at_threshold_is_voice() {
    // Every sample at 200 puts the root-mean-square exactly at the
    // threshold, which counts as voice.
    assert!(!is_silence(&frame(200), 200));
    assert!(is_silence(&frame(199), 200));
    assert!(is_silence(&frame(-199), 200));
    assert!(!is_silence(&frame(-200), 200));
}

#[test]
fn empty_block_is_silence() {
    assert!(is_silence(&[], 200));
}

#[test]
fn zero_block_is_silence() {
    assert!(is_silence(&frame(0), 200));
}

/// Thirty all-zero frames from a fresh state: no audio is emitted, every
/// frame draws one suppression note.
#[test]
fn silence_suppression() {
    let mut state = CaptureState::new();
    let mut suppressed = 0;
    let mut emitted = 0;
    for _ in 0..30 {
        match process_capture_frame(&mut state, &frame(0)) {
            CaptureAction::Suppress => suppressed += 1,
            CaptureAction::Transmit => emitted += 1,
            CaptureAction::Paced => {}
        }
    }
    assert_eq!(emitted, 0);
    assert_eq!(suppressed, 30);
}

/// Five voice frames then twenty silent ones: 5 + 10 = 15 frames go out,
/// and suppression begins after the hangover drains.
#[test]
fn voice_burst() {
    let mut state = CaptureState::new();
    let mut actions = Vec::new();
    for _ in 0..5 {
        actions.push(process_capture_frame(&mut state, &frame(5000)));
    }
    for _ in 0..20 {
        actions.push(process_capture_frame(&mut state, &frame(0)));
    }
    let emitted = actions.iter().filter(|a| **a == CaptureAction::Transmit).count();
    assert_eq!(emitted, 15);
    assert!(actions[..15].iter().all(|a| *a == CaptureAction::Transmit));
    assert!(actions[15..].iter().all(|a| *a == CaptureAction::Suppress));
}

/// A mute toggle stops emission with the very next frame, even in voice.
#[test]
fn mute_toggle_latency() {
    let mut state = CaptureState::new();
    assert_eq!(process_capture_frame(&mut state, &frame(5000)), CaptureAction::Transmit);
    state.toggle_mute();
    assert_eq!(process_capture_frame(&mut state, &frame(5000)), CaptureAction::Paced);
    assert_eq!(process_capture_frame(&mut state, &frame(5000)), CaptureAction::Paced);
    state.toggle_mute();
    assert_eq!(process_capture_frame(&mut state, &frame(5000)), CaptureAction::Transmit);
}

/// Voice resets the hangover even while it is draining.
#[test]
fn voice_resets_hangover() {
    let mut state = CaptureState::new();
    capture_step(&mut state, false);
    assert_eq!(state.hangover, 10);
    for _ in 0..4 {
        capture_step(&mut state, true);
    }
    assert_eq!(state.hangover, 6);
    capture_step(&mut state, false);
    assert_eq!(state.hangover, 10);
}

#[test]
fn sample_conversion_round_trip() {
    let samples: Vec<i16> = vec![0, 1, -1, 32767, -32768, 200, -200];
    let bytes = sample_bytes(&samples);
    assert_eq!(bytes.len(), 2 * samples.len());
    assert_eq!(pcm_samples(&bytes), samples);
}

#[test]
fn pcm_samples_reads_little_endian() {
    // 0x0100 = 256, and 0xffff reads as -1.
    assert_eq!(pcm_samples(&[0x00, 0x01, 0xff, 0xff]), vec![256, -1]);
}
