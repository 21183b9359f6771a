use whis::audio::AudioChunk;
use whis::error::PipelineError;
use whis::orchestrator::{
    collect_outcomes, sort_transcriptions, Orchestrator, MAX_CONCURRENT_REQUESTS,
};
use whis::transcribe::ChunkTranscription;

fn chunk(index: usize) -> AudioChunk {
    AudioChunk { data: vec![index as u8], index, has_leading_overlap: index > 0 }
}

fn chunks(n: usize) -> Vec<AudioChunk> {
    (0..n).map(chunk).collect()
}

fn transcription(index: usize, text: &str) -> ChunkTranscription {
    ChunkTranscription { index, text: text.to_string(), has_leading_overlap: index > 0 }
}

fn failed(message: &str) -> PipelineError {
    PipelineError::Transcription(message.to_string())
}

#[test]
fn at_most_three_requests_are_in_flight() {
    assert_eq!(MAX_CONCURRENT_REQUESTS, 3);
    let mut orchestrator = Orchestrator::new(&chunks(10));
    let mut peak = 0;
    let mut finished = 0;
    while finished < 10 {
        for slot in 0..10 {
            orchestrator.try_start(slot);
            assert!(orchestrator.in_flight() <= 3);
            peak = peak.max(orchestrator.in_flight());
        }
        assert_eq!(orchestrator.in_flight(), 3.min(10 - finished));
        let first_running = (0..10)
            .find(|slot| orchestrator.complete(*slot, Ok(format!("t{slot}"))).is_some());
        assert!(first_running.is_some());
        finished += 1;
    }
    assert_eq!(peak, 3);
    assert!(orchestrator.is_settled());
    assert_eq!(orchestrator.in_flight(), 0);
}

#[test]
fn a_fourth_task_must_wait_for_a_permit() {
    let mut orchestrator = Orchestrator::new(&chunks(5));
    assert_eq!(orchestrator.total(), 5);
    assert!(orchestrator.try_start(4));
    assert!(orchestrator.try_start(0));
    assert!(orchestrator.try_start(2));
    assert!(!orchestrator.try_start(1));
    assert!(!orchestrator.try_start(3));
    assert_eq!(orchestrator.in_flight(), 3);
    assert_eq!(orchestrator.complete(0, Err(failed("x"))), None);
    assert_eq!(orchestrator.in_flight(), 2);
    assert!(orchestrator.try_start(1));
    assert!(!orchestrator.try_start(3));
}

#[test]
fn a_task_starts_once_and_only_if_it_exists() {
    let mut orchestrator = Orchestrator::new(&chunks(2));
    assert!(!orchestrator.try_start(2));
    assert!(orchestrator.try_start(1));
    assert!(!orchestrator.try_start(1));
    assert_eq!(orchestrator.in_flight(), 1);
    assert_eq!(orchestrator.complete(1, Ok("done".into())), Some((1, 2)));
    assert!(!orchestrator.try_start(1));
    assert_eq!(orchestrator.in_flight(), 0);
}

#[test]
fn progress_is_reported_once_per_transcribed_chunk() {
    let mut orchestrator = Orchestrator::new(&chunks(4));
    assert_eq!(orchestrator.complete(0, Ok("early".into())), None);
    for slot in 0..3 {
        assert!(orchestrator.try_start(slot));
    }
    assert_eq!(orchestrator.complete(2, Ok("c".into())), Some((1, 4)));
    assert_eq!(orchestrator.complete(2, Ok("again".into())), None);
    assert_eq!(orchestrator.complete(1, Err(failed("no"))), None);
    assert_eq!(orchestrator.complete(0, Ok("a".into())), Some((2, 4)));
    assert_eq!(orchestrator.complete(7, Ok("nobody".into())), None);
    assert_eq!(orchestrator.completed(), 2);
    assert!(!orchestrator.is_settled());
    assert!(orchestrator.try_start(3));
    assert_eq!(orchestrator.complete(3, Ok("d".into())), Some((3, 4)));
    assert!(orchestrator.is_settled());
}

#[test]
fn out_of_order_completion_still_merges_in_index_order() {
    let mut orchestrator = Orchestrator::new(&chunks(4));
    let texts = ["alpha beta", "beta gamma", "gamma delta", "delta epsilon"];
    for slot in [3usize, 1, 2] {
        assert!(orchestrator.try_start(slot));
    }
    for slot in [2usize, 3] {
        assert!(orchestrator.complete(slot, Ok(texts[slot].to_string())).is_some());
    }
    assert!(orchestrator.try_start(0));
    for slot in [0usize, 1] {
        assert!(orchestrator.complete(slot, Ok(texts[slot].to_string())).is_some());
    }
    assert!(orchestrator.is_settled());
    assert_eq!(orchestrator.finish(), Ok("alpha beta gamma delta epsilon".to_string()));
}

#[test]
fn chunks_given_out_of_order_are_merged_by_index() {
    let given = vec![chunk(2), chunk(0), chunk(1)];
    let mut orchestrator = Orchestrator::new(&given);
    for slot in 0..3 {
        assert!(orchestrator.try_start(slot));
    }
    orchestrator.complete(0, Ok("three".into()));
    orchestrator.complete(1, Ok("one".into()));
    orchestrator.complete(2, Ok("two".into()));
    assert_eq!(orchestrator.finish(), Ok("one two three".to_string()));
}

#[test]
fn one_failed_chunk_fails_the_whole() {
    let mut orchestrator = Orchestrator::new(&chunks(3));
    for slot in 0..3 {
        assert!(orchestrator.try_start(slot));
    }
    orchestrator.complete(0, Ok("fine".into()));
    orchestrator.complete(1, Err(failed("OpenAI API error (500 Internal Server Error): oops")));
    orchestrator.complete(2, Ok("also fine".into()));
    assert_eq!(
        orchestrator.finish(),
        Err(failed(
            "Failed to transcribe 1 of 3 chunks:\n\
             OpenAI API error (500 Internal Server Error): oops"
        ))
    );
}

#[test]
fn no_chunks_give_an_empty_text() {
    let orchestrator = Orchestrator::new(&Vec::new());
    assert!(orchestrator.is_settled());
    assert_eq!(orchestrator.finish(), Ok(String::new()));
    assert_eq!(collect_outcomes(Vec::new()), Ok(String::new()));
}

#[test]
fn collect_lists_every_failure_in_order() {
    let outcomes = vec![
        Err(failed("first")),
        Ok(transcription(1, "kept out")),
        Err(PipelineError::TaskFailure("worker died".into())),
    ];
    assert_eq!(
        collect_outcomes(outcomes),
        Err(failed("Failed to transcribe 2 of 3 chunks:\nfirst\nTask panicked: worker died"))
    );
}

#[test]
fn collect_counts_with_more_than_one_digit() {
    let mut outcomes: Vec<Result<ChunkTranscription, PipelineError>> = Vec::new();
    for i in 0..12 {
        outcomes.push(if i == 11 { Ok(transcription(i, "x")) } else { Err(failed("e")) });
    }
    let report = collect_outcomes(outcomes).unwrap_err().message();
    assert!(report.starts_with("Failed to transcribe 11 of 12 chunks:\ne\ne\n"));
    assert_eq!(report.lines().count(), 12);
}

#[test]
fn collect_sorts_before_merging() {
    let outcomes = vec![
        Ok(transcription(2, "fox jumps over")),
        Ok(transcription(0, "the quick")),
        Ok(transcription(1, "quick brown fox")),
    ];
    assert_eq!(collect_outcomes(outcomes), Ok("the quick brown fox jumps over".to_string()));
}

#[test]
fn sort_is_stable_and_keeps_every_item() {
    let items = vec![
        transcription(3, "d"),
        transcription(1, "b1"),
        transcription(0, "a"),
        transcription(1, "b2"),
        transcription(2, "c"),
    ];
    let sorted = sort_transcriptions(items);
    let texts: Vec<&str> = sorted.iter().map(|t| t.text.as_str()).collect();
    assert_eq!(texts, vec!["a", "b1", "b2", "c", "d"]);
    let already = vec![transcription(0, "x"), transcription(1, "y")];
    assert_eq!(sort_transcriptions(already.clone()), already);
    assert!(sort_transcriptions(Vec::new()).is_empty());
}
