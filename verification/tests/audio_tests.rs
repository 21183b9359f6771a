use whis::audio::{
    chunk_plan, needs_chunking, plan_windows, AudioChunk, AudioResult, SampleBuffer, Window,
    CHUNK_DURATION_SECS, CHUNK_OVERLAP_SECS, CHUNK_THRESHOLD_BYTES,
};
use whis::error::PipelineError;

fn spans(windows: &[Window]) -> Vec<(usize, usize)> {
    windows.iter().map(|w| (w.start, w.end)).collect()
}

#[test]
fn constants_have_their_documented_values() {
    assert_eq!(CHUNK_THRESHOLD_BYTES, 20 * 1024 * 1024);
    assert_eq!(CHUNK_DURATION_SECS, 300);
    assert_eq!(CHUNK_OVERLAP_SECS, 2);
}

#[test]
fn threshold_is_inclusive() {
    assert!(!needs_chunking(0));
    assert!(!needs_chunking(CHUNK_THRESHOLD_BYTES));
    assert!(needs_chunking(CHUNK_THRESHOLD_BYTES + 1));
}

#[test]
fn million_samples_give_three_windows() {
    let windows = plan_windows(1_000_000, 400_000, 4_000);
    assert_eq!(spans(&windows), vec![(0, 400_000), (396_000, 796_000), (792_000, 1_000_000)]);
    let flags: Vec<bool> = windows.iter().map(|w| w.has_leading_overlap).collect();
    assert_eq!(flags, vec![false, true, true]);
    let indices: Vec<usize> = windows.iter().map(|w| w.index).collect();
    assert_eq!(indices, vec![0, 1, 2]);
}

#[test]
fn short_recording_is_one_window() {
    assert_eq!(spans(&plan_windows(10, 400, 4)), vec![(0, 10)]);
    assert_eq!(spans(&plan_windows(400, 400, 4)), vec![(0, 400)]);
    assert_eq!(spans(&plan_windows(401, 400, 4)), vec![(0, 400), (396, 401)]);
}

#[test]
fn empty_recording_has_no_window() {
    assert!(plan_windows(0, 400, 4).is_empty());
}

#[test]
fn zero_overlap_gives_adjacent_windows() {
    assert_eq!(spans(&plan_windows(10, 4, 0)), vec![(0, 4), (4, 8), (8, 10)]);
}

#[test]
fn huge_sizes_do_not_overflow() {
    let windows = plan_windows(usize::MAX, usize::MAX - 1, 1);
    assert_eq!(spans(&windows), vec![(0, usize::MAX - 1), (usize::MAX - 2, usize::MAX)]);
}

#[test]
fn windows_leave_no_gap_for_many_configurations() {
    for total in [1usize, 2, 5, 17, 100, 1000, 4321] {
        for window_len in [1usize, 2, 3, 10, 64, 999, 5000] {
            for overlap_len in [0usize, 1, 2, 9, 63] {
                if overlap_len >= window_len {
                    continue;
                }
                let windows = plan_windows(total, window_len, overlap_len);
                assert!(!windows.is_empty());
                assert_eq!(windows[0].start, 0);
                assert_eq!(windows[windows.len() - 1].end, total);
                for (i, w) in windows.iter().enumerate() {
                    assert!(w.start < w.end && w.end - w.start <= window_len);
                    assert_eq!(w.index, i);
                    assert_eq!(w.has_leading_overlap, i > 0);
                }
                for pair in windows.windows(2) {
                    assert_eq!(pair[1].start + overlap_len, pair[0].end);
                    assert!(pair[1].start > pair[0].start);
                    assert_eq!(pair[0].end - pair[0].start, window_len);
                    if overlap_len > 0 {
                        assert!(pair[1].start < pair[0].end);
                    }
                }
            }
        }
    }
}

#[test]
fn chunk_plan_uses_five_minutes_and_two_seconds() {
    let per_second = 44_100usize * 2;
    let total = 700 * per_second;
    let windows = chunk_plan(total, 44_100, 2);
    assert_eq!(
        spans(&windows),
        vec![
            (0, 300 * per_second),
            (298 * per_second, 598 * per_second),
            (596 * per_second, total),
        ]
    );
    assert_eq!(windows, plan_windows(total, 300 * per_second, 2 * per_second));
}

#[test]
fn chunk_plan_of_a_short_recording_is_one_window() {
    let windows = chunk_plan(1000, 16_000, 1);
    assert_eq!(spans(&windows), vec![(0, 1000)]);
    assert!(!windows[0].has_leading_overlap);
    assert!(chunk_plan(0, 16_000, 1).is_empty());
    assert_eq!(spans(&chunk_plan(usize::MAX, u32::MAX, u16::MAX)).len() >= 1, true);
}

#[test]
fn chunk_takes_its_tags_from_the_window() {
    let windows = plan_windows(10, 4, 1);
    let chunk = AudioChunk::from_window(&windows[1], vec![1, 2, 3]);
    assert_eq!(chunk, AudioChunk { data: vec![1, 2, 3], index: 1, has_leading_overlap: true });
    let result = AudioResult::Chunked(vec![chunk.clone()]);
    assert_eq!(result, AudioResult::Chunked(vec![chunk]));
    assert_ne!(result, AudioResult::Single(vec![1, 2, 3]));
}

#[test]
fn stopping_with_no_samples_is_an_empty_recording() {
    let mut buffer: SampleBuffer<f32> = SampleBuffer::new();
    assert!(buffer.is_empty());
    assert_eq!(buffer.take(), Err(PipelineError::EmptyRecording));
    assert!(buffer.is_empty());
}

#[test]
fn take_hands_over_the_samples_once() {
    let mut buffer: SampleBuffer<f32> = SampleBuffer::new();
    buffer.push(0.25);
    buffer.push(-1.0);
    buffer.push(1.0);
    assert_eq!(buffer.len(), 3);
    assert!(!buffer.is_empty());
    assert_eq!(buffer.take(), Ok(vec![0.25, -1.0, 1.0]));
    assert_eq!(buffer.len(), 0);
    assert_eq!(buffer.take(), Err(PipelineError::EmptyRecording));
}

#[test]
fn clear_drops_stale_samples() {
    let mut buffer: SampleBuffer<i16> = SampleBuffer::new();
    buffer.push(5);
    buffer.clear();
    assert!(buffer.is_empty());
    buffer.push(7);
    assert_eq!(buffer.take(), Ok(vec![7]));
}
