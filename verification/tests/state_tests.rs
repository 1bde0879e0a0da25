use capture_core::state::AudioState;
use capture_core::state::Command;

fn bits(xs: &[f32]) -> Vec<u32> {
    xs.iter().map(|x| x.to_bits()).collect()
}

#[test]
fn new_state_records_with_empty_history() {
    let state = AudioState::new(4, String::from("captures"));
    assert!(state.is_recording());
    assert!(state.keep_running());
    assert_eq!(state.len(), 0);
    assert_eq!(state.capacity(), 4);
    assert_eq!(state.output_dir(), "captures");
}

#[test]
fn toggle_idempotence() {
    // Stopping twice has the same observable effect as stopping once, and
    // likewise for starting.
    let mut state = AudioState::new(4, String::from("captures"));
    state.record_block(&vec![1, 2]);
    state.stop_recording();
    let once = (state.is_recording(), state.keep_running(), state.snapshot());
    state.stop_recording();
    let twice = (state.is_recording(), state.keep_running(), state.snapshot());
    assert_eq!(once, twice);
    state.start_recording();
    let once = (state.is_recording(), state.keep_running(), state.snapshot());
    state.start_recording();
    let twice = (state.is_recording(), state.keep_running(), state.snapshot());
    assert_eq!(once, twice);
}

#[test]
fn stop_does_not_clear_history() {
    let mut state = AudioState::new(4, String::from("captures"));
    state.record_block(&vec![1, 2, 3]);
    state.stop_recording();
    assert_eq!(state.snapshot(), vec![1, 2, 3]);
}

#[test]
fn blocks_are_dropped_while_not_recording() {
    let mut state = AudioState::new(4, String::from("captures"));
    state.record_block(&vec![1, 2]);
    state.stop_recording();
    state.record_block(&vec![3, 4]);
    assert_eq!(state.snapshot(), vec![1, 2]);
}

#[test]
fn halt_terminality() {
    // Once halted, the loop is told to stop and no block enters the history;
    // a second halt changes nothing.
    let mut state = AudioState::new(4, String::from("captures"));
    state.record_block(&vec![1, 2]);
    state.halt();
    assert!(!state.is_recording());
    assert!(!state.keep_running());
    state.record_block(&vec![9, 9]);
    assert_eq!(state.snapshot(), vec![1, 2]);
    state.halt();
    assert!(!state.keep_running());
    assert_eq!(state.snapshot(), vec![1, 2]);
}

#[test]
fn halting_flag_survives_restarted_recording() {
    let mut state = AudioState::new(4, String::from("captures"));
    state.halt();
    state.start_recording();
    assert!(state.is_recording());
    assert!(!state.keep_running());
}

#[test]
fn command_dispatch_matches_direct_calls() {
    let mut state = AudioState::new(4, String::from("captures"));
    state.apply(&Command::Stop);
    assert!(!state.is_recording());
    state.apply(&Command::Start);
    assert!(state.is_recording());
    state.apply(&Command::Halt);
    assert!(!state.is_recording());
    assert!(!state.keep_running());
}

#[test]
fn history_overwrites_oldest_across_blocks() {
    let mut state = AudioState::new(4, String::from("captures"));
    state.record_block(&vec![1, 2, 3]);
    state.record_block(&vec![4, 5, 6, 7]);
    assert_eq!(state.snapshot(), vec![4, 5, 6, 7]);
}

#[test]
fn ingest_block_chunks_exact_multiple() {
    // A block of 3 * 2 converted samples yields exactly 3 full frames and no
    // partial one.
    let mut state = AudioState::new(16, String::from("captures"));
    let block = bits(&[0.0, 0.5, 1.0, -0.5, 0.25, -1.0]);
    let out = state.ingest_block(&block, 2);
    assert_eq!(out.frames.len(), 3);
    for frame in &out.frames {
        assert_eq!(frame.len(), 2);
    }
    assert_eq!(out.frames[0], vec![0, 16383]);
    assert_eq!(out.frames[1], vec![32767, -16383]);
    assert_eq!(out.frames[2], vec![8191, -32767]);
    assert_eq!(out.clipped, 0);
    assert_eq!(state.len(), 6);
}

#[test]
fn ingest_block_drops_partial_remainder() {
    let mut state = AudioState::new(16, String::from("captures"));
    let block = bits(&[0.0; 7]);
    let out = state.ingest_block(&block, 3);
    assert_eq!(out.frames.len(), 2);
    assert_eq!(state.len(), 7);
}

#[test]
fn ingest_block_reports_clipping_and_respects_recording_flag() {
    let mut state = AudioState::new(16, String::from("captures"));
    state.stop_recording();
    let block = bits(&[2.0, 0.0, -2.0, 0.5]);
    let out = state.ingest_block(&block, 2);
    assert_eq!(out.clipped, 2);
    assert_eq!(out.frames.len(), 2);
    // Not recording: the history stays empty, the detector still gets frames.
    assert_eq!(state.len(), 0);
}

#[test]
fn end_to_end_rolling_save() {
    // One second at 8000 samples per second: capacity 8000.  Fill it with
    // zeros, save, push 4000 more, save again: the second save still holds
    // 8000 samples and its first 4000 equal the first save's last 4000.
    let mut state = AudioState::new(8000, String::from("captures"));
    state.record_block(&bits(&[0.0f32; 8000]));
    let first = state.snapshot();
    assert_eq!(first.len(), 8000);
    state.record_block(&bits(&[0.25f32; 4000]));
    let second = state.snapshot();
    assert_eq!(second.len(), 8000);
    assert_eq!(second[..4000], first[4000..]);
    assert!(second[4000..].iter().all(|&b| b == 0.25f32.to_bits()));
}
