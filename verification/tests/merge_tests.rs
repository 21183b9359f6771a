use whis::merge::{find_overlap, merge_transcriptions, remove_overlap, MAX_OVERLAP_WORDS};
use whis::transcribe::ChunkTranscription;

fn chunk(index: usize, text: &str, has_leading_overlap: bool) -> ChunkTranscription {
    ChunkTranscription { index, text: text.to_string(), has_leading_overlap }
}

fn words(s: &str) -> Vec<Vec<char>> {
    s.split_whitespace().map(|w| w.chars().collect()).collect()
}

#[test]
fn merge_of_nothing_is_empty() {
    assert_eq!(merge_transcriptions(Vec::new()), "");
}

#[test]
fn merge_single_chunk_returns_trimmed_text() {
    let merged = merge_transcriptions(vec![chunk(0, "  hello there \n", false)]);
    assert_eq!(merged, "hello there");
    assert_eq!(merge_transcriptions(vec![chunk(0, "as  it   is", true)]), "as  it   is");
}

#[test]
fn merge_removes_two_word_overlap() {
    let merged = merge_transcriptions(vec![
        chunk(0, "I saw the quick brown fox", false),
        chunk(1, "brown fox jumps over", true),
    ]);
    assert_eq!(merged, "I saw the quick brown fox jumps over");
    assert!(merged.ends_with("the quick brown fox jumps over"));
}

#[test]
fn merge_without_shared_words_uses_one_space() {
    let merged = merge_transcriptions(vec![
        chunk(0, " first part. ", false),
        chunk(1, "\tSecond part ", true),
    ]);
    assert_eq!(merged, "first part. Second part");
}

#[test]
fn merge_without_overlap_flag_keeps_repeated_words() {
    let merged = merge_transcriptions(vec![
        chunk(0, "the end", false),
        chunk(1, "the end again", false),
    ]);
    assert_eq!(merged, "the end the end again");
}

#[test]
fn merge_of_three_chunks_matches_against_the_text_so_far() {
    let merged = merge_transcriptions(vec![
        chunk(0, "one two three", false),
        chunk(1, "two three four five", true),
        chunk(2, "Four FIVE six", true),
    ]);
    assert_eq!(merged, "one two three four five six");
}

#[test]
fn merge_skips_a_chunk_that_is_all_overlap() {
    let merged = merge_transcriptions(vec![
        chunk(0, "a b c", false),
        chunk(1, "b c", true),
        chunk(2, "", true),
        chunk(3, "d", true),
    ]);
    assert_eq!(merged, "a b c d");
}

#[test]
fn merge_after_an_empty_first_chunk_starts_with_the_separator() {
    let merged = merge_transcriptions(vec![chunk(0, "   ", false), chunk(1, "hello", true)]);
    assert_eq!(merged, " hello");
}

#[test]
fn remove_overlap_is_case_insensitive() {
    assert_eq!(remove_overlap("and then The End", "the end of it"), "of it");
}

#[test]
fn remove_overlap_takes_the_longest_match() {
    assert_eq!(remove_overlap("a a", "a a b"), "b");
    assert_eq!(remove_overlap("x y x y", "x y x y z"), "z");
}

#[test]
fn remove_overlap_leaves_unmatched_text_as_it_is() {
    assert_eq!(remove_overlap("one two", "three   four "), "three   four ");
    assert_eq!(remove_overlap("", "three four"), "three four");
    assert_eq!(remove_overlap("one", ""), "");
    assert_eq!(remove_overlap("one", "   "), "   ");
}

#[test]
fn remove_overlap_normalises_the_rest_when_words_are_dropped() {
    assert_eq!(remove_overlap("so it goes", "it  goes   on \n and on"), "on and on");
}

#[test]
fn remove_overlap_is_limited_to_fifteen_words() {
    assert_eq!(MAX_OVERLAP_WORDS, 15);
    let sixteen = "w1 w2 w3 w4 w5 w6 w7 w8 w9 w10 w11 w12 w13 w14 w15 w16";
    let fifteen = "w2 w3 w4 w5 w6 w7 w8 w9 w10 w11 w12 w13 w14 w15 w16";
    assert_eq!(remove_overlap(sixteen, &format!("{sixteen} tail")), format!("{sixteen} tail"));
    assert_eq!(remove_overlap(sixteen, &format!("{fifteen} tail")), "tail");
}

#[test]
fn find_overlap_counts_words() {
    assert_eq!(find_overlap(&words("the quick brown fox"), &words("brown fox jumps over")), 2);
    assert_eq!(find_overlap(&words("the quick brown fox"), &words("FOX")), 1);
    assert_eq!(find_overlap(&words("the quick brown fox"), &words("dog")), 0);
    assert_eq!(find_overlap(&words(""), &words("dog")), 0);
    assert_eq!(find_overlap(&words("a b"), &words("a b")), 2);
}
