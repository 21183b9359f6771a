//! Captured samples and the decision how a recording is cut into chunks.
//!
//! A recording whose encoded form fits the size limit of the transcription
//! service is sent whole. A longer one is cut into windows of fixed length
//! over the raw samples, each starting a little before the end of its
//! predecessor so that no word is lost at a seam.

use crate::error::PipelineError;
use vstd::prelude::*;

verus! {

/// Threshold for chunking: encoded recordings larger than this get split (20 MiB).
pub const CHUNK_THRESHOLD_BYTES: usize = 20 * 1024 * 1024;

/// Duration of each chunk in seconds.
pub const CHUNK_DURATION_SECS: u64 = 300;

/// Overlap between chunks in seconds.
pub const CHUNK_OVERLAP_SECS: u64 = 2;

/// A chunk of encoded audio ready for transcription.
#[derive(Debug, Clone, PartialEq, Eq)]
pub struct AudioChunk {
    /// Encoded audio data.
    pub data: Vec<u8>,
    /// Chunk index (0-based, for ordering).
    pub index: usize,
    /// Whether this chunk has overlap from the previous chunk.
    pub has_leading_overlap: bool,
}

/// Result of stopping a recording: either a single file or multiple chunks.
#[derive(Debug, Clone, PartialEq, Eq)]
pub enum AudioResult {
    /// Small file that can be transcribed directly.
    Single(Vec<u8>),
    /// Large file split into chunks for parallel transcription.
    Chunked(Vec<AudioChunk>),
}

/// A half-open range `[start, end)` of sample positions.
pub ghost struct Span {
    pub start: int,
    pub end: int,
}

/// One window over the raw samples, tagged for the chunk it becomes.
#[derive(Debug, Clone, Copy, PartialEq, Eq)]
pub struct Window {
    /// Position of the first sample.
    pub start: usize,
    /// Position after the last sample.
    pub end: usize,
    /// Window index (0-based).
    pub index: usize,
    /// Whether the window starts inside its predecessor.
    pub has_leading_overlap: bool,
}

impl View for Window {
    type V = Span;

    open spec fn view(&self) -> Span {
        Span { start: self.start as int, end: self.end as int }
    }
}

/// The sample ranges of a sequence of windows.
pub open spec fn window_spans(windows: Seq<Window>) -> Seq<Span> {
    windows.map_values(|w: Window| w@)
}

/// Each window carries its position as index, and all but the first are
/// marked as overlapping their predecessor.
pub open spec fn tagged_in_order(windows: Seq<Window>) -> bool {
    forall|i: int|
        0 <= i < windows.len() ==> (#[trigger] windows[i]).index == i
            && windows[i].has_leading_overlap == (i > 0)
}

/// Where a window that starts at `start` ends.
pub open spec fn window_end(start: int, total: int, window_len: int) -> int {
    if start + window_len < total {
        start + window_len
    } else {
        total
    }
}

/// The windows from `start` on: each ends `window_len` samples after its
/// start or at `total`, whichever comes first; the window that reaches
/// `total` is the last; every other is followed by one that starts
/// `overlap_len` samples before its end.
pub open spec fn spans_from(start: int, total: int, window_len: int, overlap_len: int) -> Seq<Span>
    decreases total - start,
    when 0 <= overlap_len < window_len
{
    if start >= total {
        Seq::empty()
    } else {
        let end = window_end(start, total, window_len);
        let head = seq![Span { start, end }];
        if end >= total {
            head
        } else {
            head + spans_from(end - overlap_len, total, window_len, overlap_len)
        }
    }
}

/// The windows over a recording of `total` samples.
pub open spec fn planned_spans(total: int, window_len: int, overlap_len: int) -> Seq<Span> {
    spans_from(0, total, window_len, overlap_len)
}

/// Samples per second of interleaved audio.
pub open spec fn samples_per_second(sample_rate: u32, channels: u16) -> int {
    sample_rate as int * channels as int
}

/// Shape of the windows from `start` on: they begin at `start`, end at
/// `total`, stay within the recording, none is empty, all but the last have
/// full length, and each next one starts `overlap_len` samples before the end
/// of its predecessor.
pub proof fn lemma_spans_shape(start: int, total: int, window_len: int, overlap_len: int)
    requires
        0 <= start < total,
        0 <= overlap_len < window_len,
    ensures
        ({
            let s = spans_from(start, total, window_len, overlap_len);
            &&& s.len() > 0
            &&& s[0].start == start
            &&& s.last().end == total
            &&& forall|i: int|
                0 <= i < s.len() ==> start <= (#[trigger] s[i]).start < s[i].end <= total
                    && s[i].end - s[i].start <= window_len
            &&& forall|i: int|
                0 <= i < s.len() - 1 ==> (#[trigger] s[i]).end - s[i].start == window_len && s[i
                    + 1].start == s[i].end - overlap_len
        }),
    decreases total - start,
{
    let s = spans_from(start, total, window_len, overlap_len);
    let end = window_end(start, total, window_len);
    if end < total {
        let next = end - overlap_len;
        let rest = spans_from(next, total, window_len, overlap_len);
        lemma_spans_shape(next, total, window_len, overlap_len);
        assert(s =~= seq![Span { start, end }] + rest);
        assert forall|i: int| 0 <= i < s.len() implies start <= (#[trigger] s[i]).start
            < s[i].end <= total && s[i].end - s[i].start <= window_len by {
            if i > 0 {
                assert(s[i] == rest[i - 1]);
            }
        }
        assert forall|i: int| 0 <= i < s.len() - 1 implies (#[trigger] s[i]).end - s[i].start
            == window_len && s[i + 1].start == s[i].end - overlap_len by {
            assert(s[i + 1] == rest[i]);
            if i > 0 {
                assert(s[i] == rest[i - 1]);
            }
        }
    }
}

/// Where each window lies: the one with index `i` starts `i` strides after
/// the first, a stride being the window length less the overlap.
pub proof fn lemma_span_positions(start: int, total: int, window_len: int, overlap_len: int)
    requires
        0 <= start < total,
        0 <= overlap_len < window_len,
    ensures
        forall|i: int|
            0 <= i < spans_from(start, total, window_len, overlap_len).len() ==> (
            #[trigger] spans_from(start, total, window_len, overlap_len)[i]).start == start + i
                * (window_len - overlap_len),
    decreases total - start,
{
    let s = spans_from(start, total, window_len, overlap_len);
    let stride = window_len - overlap_len;
    let end = window_end(start, total, window_len);
    assert(start + 0 * stride == start) by (nonlinear_arith);
    if end < total {
        let next = end - overlap_len;
        let rest = spans_from(next, total, window_len, overlap_len);
        lemma_span_positions(next, total, window_len, overlap_len);
        assert(s =~= seq![Span { start, end }] + rest);
        assert forall|i: int| 0 <= i < s.len() implies (#[trigger] s[i]).start == start + i
            * stride by {
            if i > 0 {
                assert(s[i] == rest[i - 1]);
                assert(rest[i - 1].start == next + (i - 1) * stride);
                assert(next + (i - 1) * stride == start + i * stride) by (nonlinear_arith)
                    requires
                        next == start + stride,
                ;
            }
        }
    } else {
        assert(s =~= seq![Span { start, end }]);
    }
}

/// With an overlap of at least one sample, the windows over a non-empty
/// recording leave no gap: every two consecutive windows share at least one
/// sample, the first starts at 0, and the last ends at the total length.
pub proof fn lemma_windows_leave_no_gap(total: int, window_len: int, overlap_len: int)
    requires
        0 < total,
        0 < overlap_len < window_len,
    ensures
        ({
            let s = planned_spans(total, window_len, overlap_len);
            &&& s.len() > 0
            &&& s[0].start == 0
            &&& s.last().end == total
            &&& forall|i: int|
                0 <= i < s.len() - 1 ==> (#[trigger] s[i]).start < s[i + 1].start < s[i].end
        }),
{
    lemma_spans_shape(0, total, window_len, overlap_len);
    let s = planned_spans(total, window_len, overlap_len);
    assert forall|i: int| 0 <= i < s.len() - 1 implies (#[trigger] s[i]).start < s[i + 1].start
        < s[i].end by {
        assert(s[i].end - s[i].start == window_len);
    }
}

impl AudioChunk {
    /// The chunk that holds the encoded audio of one window.
    pub fn from_window(window: &Window, data: Vec<u8>) -> (chunk: AudioChunk)
        ensures
            chunk.data == data,
            chunk.index == window.index,
            chunk.has_leading_overlap == window.has_leading_overlap,
    {
        AudioChunk { data, index: window.index, has_leading_overlap: window.has_leading_overlap }
    }
}

/// Whether an encoded recording of this size has to be split.
pub fn needs_chunking(encoded_len: usize) -> (r: bool)
    ensures
        r == (encoded_len > CHUNK_THRESHOLD_BYTES),
{
    encoded_len > CHUNK_THRESHOLD_BYTES
}

/// Plans the windows over `total_len` raw samples.
pub fn plan_windows(total_len: usize, window_len: usize, overlap_len: usize) -> (windows: Vec<
    Window,
>)
    requires
        overlap_len < window_len,
    ensures
        window_spans(windows@) == planned_spans(
            total_len as int,
            window_len as int,
            overlap_len as int,
        ),
        tagged_in_order(windows@),
        windows.len() > 0 <==> total_len > 0,
        windows.len() > 0 ==> windows[0].start == 0 && windows[windows.len() - 1].end
            == total_len,
        forall|i: int|
            0 <= i < windows.len() - 1 ==> (#[trigger] windows[i]).start < windows[i + 1].start
                && windows[i + 1].start + overlap_len == windows[i].end,
{
    let ghost plan = planned_spans(total_len as int, window_len as int, overlap_len as int);
    let mut windows: Vec<Window> = Vec::new();
    let mut start: usize = 0;
    while start < total_len
        invariant
            start <= total_len,
            overlap_len < window_len,
            tagged_in_order(windows@),
            plan == planned_spans(total_len as int, window_len as int, overlap_len as int),
            plan == window_spans(windows@) + spans_from(
                start as int,
                total_len as int,
                window_len as int,
                overlap_len as int,
            ),
        decreases total_len - start,
    {
        let ghost before = window_spans(windows@);
        let end: usize = if window_len < total_len - start {
            start + window_len
        } else {
            total_len
        };
        let index: usize = windows.len();
        windows.push(Window { start, end, index, has_leading_overlap: index > 0 });
        proof {
            assert(window_spans(windows@) =~= before.push(Span {
                start: start as int,
                end: end as int,
            }));
            assert(end == window_end(start as int, total_len as int, window_len as int));
        }
        if end >= total_len {
            start = total_len;
        } else {
            start = end - overlap_len;
        }
        proof {
            let rest = spans_from(
                start as int,
                total_len as int,
                window_len as int,
                overlap_len as int,
            );
            assert(plan =~= window_spans(windows@) + rest);
        }
    }
    proof {
        assert(plan =~= window_spans(windows@));
        if total_len > 0 {
            lemma_spans_shape(0, total_len as int, window_len as int, overlap_len as int);
            assert(windows@[0]@ == plan[0]);
            assert(windows@[windows.len() - 1]@ == plan.last());
            assert forall|i: int| 0 <= i < windows.len() - 1 implies (#[trigger] windows[i]).start
                < windows[i + 1].start && windows[i + 1].start + overlap_len
                == windows[i].end by {
                assert(windows@[i]@ == plan[i]);
                assert(windows@[i + 1]@ == plan[i + 1]);
                assert(plan[i].end - plan[i].start == window_len);
            }
        }
    }
    windows
}

/// Plans the chunks of a recording of `total_len` samples captured at the
/// given rate: windows of 300 seconds that overlap by 2 seconds.
pub fn chunk_plan(total_len: usize, sample_rate: u32, channels: u16) -> (windows: Vec<Window>)
    requires
        sample_rate > 0,
        channels > 0,
    ensures
        window_spans(windows@) == planned_spans(
            total_len as int,
            CHUNK_DURATION_SECS * samples_per_second(sample_rate, channels),
            CHUNK_OVERLAP_SECS * samples_per_second(sample_rate, channels),
        ),
        tagged_in_order(windows@),
{
    let rate: u64 = sample_rate as u64;
    let width: u64 = channels as u64;
    assert(rate * width <= 0xFFFF_FFFF * 0xFFFF) by (nonlinear_arith)
        requires
            rate <= 0xFFFF_FFFF,
            width <= 0xFFFF,
    ;
    assert(rate * width >= 1) by (nonlinear_arith)
        requires
            rate >= 1,
            width >= 1,
    ;
    let per_second: u64 = rate * width;
    let window_len: u64 = CHUNK_DURATION_SECS * per_second;
    let overlap_len: u64 = CHUNK_OVERLAP_SECS * per_second;
    if window_len >= total_len as u64 {
        let mut windows: Vec<Window> = Vec::new();
        if total_len > 0 {
            windows.push(Window { start: 0, end: total_len, index: 0, has_leading_overlap: false });
        }
        proof {
            let plan = planned_spans(total_len as int, window_len as int, overlap_len as int);
            assert(window_spans(windows@) =~= plan);
        }
        windows
    } else {
        plan_windows(total_len, window_len as usize, overlap_len as usize)
    }
}

/// Ordered store of captured samples, filled while recording and emptied
/// when the recording stops.
pub struct SampleBuffer<S> {
    samples: Vec<S>,
}

impl<S> View for SampleBuffer<S> {
    type V = Seq<S>;

    closed spec fn view(&self) -> Seq<S> {
        self.samples@
    }
}

impl<S> SampleBuffer<S> {
    /// An empty buffer.
    pub fn new() -> (buffer: Self)
        ensures
            buffer@ == Seq::<S>::empty(),
    {
        SampleBuffer { samples: Vec::new() }
    }

    /// Number of samples held.
    pub fn len(&self) -> (n: usize)
        ensures
            n == self@.len(),
    {
        self.samples.len()
    }

    /// Whether no sample is held.
    pub fn is_empty(&self) -> (r: bool)
        ensures
            r == (self@.len() == 0),
    {
        self.samples.len() == 0
    }

    /// Appends one sample.
    pub fn push(&mut self, sample: S)
        ensures
            final(self)@ == old(self)@.push(sample),
    {
        self.samples.push(sample);
    }

    /// Drops all samples, as at the start of a new recording.
    pub fn clear(&mut self)
        ensures
            final(self)@ == Seq::<S>::empty(),
    {
        self.samples.clear();
    }

    /// Hands over the accumulated samples and leaves the buffer empty, so
    /// that no sample is processed twice. Fails when nothing was captured.
    pub fn take(&mut self) -> (r: Result<Vec<S>, PipelineError>)
        ensures
            final(self)@ == Seq::<S>::empty(),
            old(self)@.len() == 0 ==> r == Err::<Vec<S>, PipelineError>(
                PipelineError::EmptyRecording,
            ),
            old(self)@.len() > 0 ==> r is Ok && r->Ok_0@ == old(self)@,
    {
        let mut taken: Vec<S> = Vec::new();
        std::mem::swap(&mut self.samples, &mut taken);
        if taken.len() == 0 {
            Err(PipelineError::EmptyRecording)
        } else {
            Ok(taken)
        }
    }
}

} // verus!
