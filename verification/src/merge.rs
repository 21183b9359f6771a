//! Stitching ordered chunk transcripts into one text.
//!
//! Neighbouring chunks overlap by a short stretch of audio, so the head of a
//! chunk's transcript tends to repeat the tail of what came before. The merger
//! finds the longest such repetition, word by word and ignoring ASCII case,
//! and drops it from the later chunk.

use crate::text::{
    chars_of, eq_ignore_ascii_case, extend_from_range, is_trimmed, is_whitespace, is_word,
    join_from, join_words, lemma_split_ignores_outer_whitespace, lemma_trim_is_trimmed,
    lemma_words_are_solid, split_chars, split_words, string_of, trim, trim_chars, views,
    words_match,
};
use crate::transcribe::{transcript_models, ChunkTranscription, TranscriptModel};
use vstd::prelude::*;

verus! {

/// Maximum number of words searched for an overlap between chunks.
pub const MAX_OVERLAP_WORDS: usize = 15;

/// The largest overlap length that is tried for the two word sequences.
pub open spec fn overlap_limit(existing: Seq<Seq<char>>, incoming: Seq<Seq<char>>) -> int {
    let shorter = if existing.len() <= incoming.len() {
        existing.len() as int
    } else {
        incoming.len() as int
    };
    if shorter <= MAX_OVERLAP_WORDS as int {
        shorter
    } else {
        MAX_OVERLAP_WORDS as int
    }
}

/// The last `k` words of `existing` equal the first `k` words of `incoming`,
/// ignoring ASCII case.
pub open spec fn overlap_matches(
    existing: Seq<Seq<char>>,
    incoming: Seq<Seq<char>>,
    k: int,
) -> bool {
    &&& 1 <= k <= overlap_limit(existing, incoming)
    &&& forall|j: int|
        0 <= j < k ==> eq_ignore_ascii_case(
            existing[existing.len() - k + j],
            #[trigger] incoming[j],
        )
}

/// The largest matching overlap length that is at most `limit`, or 0.
pub open spec fn best_overlap_within(
    existing: Seq<Seq<char>>,
    incoming: Seq<Seq<char>>,
    limit: int,
) -> int
    decreases limit,
{
    if limit <= 0 {
        0
    } else if overlap_matches(existing, incoming, limit) {
        limit
    } else {
        best_overlap_within(existing, incoming, limit - 1)
    }
}

/// The number of leading words of `incoming` that repeat the tail of `existing`.
pub open spec fn best_overlap(existing: Seq<Seq<char>>, incoming: Seq<Seq<char>>) -> int {
    best_overlap_within(existing, incoming, overlap_limit(existing, incoming))
}

/// `new_text` without the leading words that repeat the tail of `existing`.
///
/// When words are dropped, the rest is joined with single spaces; when none
/// are, the text is left as it is.
pub open spec fn remove_overlap_spec(existing: Seq<char>, new_text: Seq<char>) -> Seq<char> {
    let incoming = split_words(new_text);
    let k = best_overlap(split_words(existing), incoming);
    if k > 0 {
        join_words(incoming.skip(k))
    } else {
        new_text
    }
}

/// `acc` followed by `piece`, separated by one space; an empty piece adds nothing.
pub open spec fn join_piece(acc: Seq<char>, piece: Seq<char>) -> Seq<char> {
    if piece.len() == 0 {
        acc
    } else {
        acc + seq![' '] + piece
    }
}

/// What one further chunk contributes to the text merged so far.
pub open spec fn chunk_piece(acc: Seq<char>, item: TranscriptModel) -> Seq<char> {
    if item.has_leading_overlap {
        remove_overlap_spec(acc, trim(item.text))
    } else {
        trim(item.text)
    }
}

/// The merged text of the transcriptions, taken in the given order.
pub open spec fn merge_spec(items: Seq<TranscriptModel>) -> Seq<char>
    decreases items.len(),
{
    if items.len() == 0 {
        Seq::empty()
    } else if items.len() == 1 {
        trim(items[0].text)
    } else {
        let acc = merge_spec(items.drop_last());
        join_piece(acc, chunk_piece(acc, items.last()))
    }
}

/// The result of `best_overlap_within` is 0 or a matching length, and no
/// longer length up to `limit` matches.
pub proof fn lemma_best_overlap_is_largest(
    existing: Seq<Seq<char>>,
    incoming: Seq<Seq<char>>,
    limit: int,
)
    ensures
        ({
            let best = best_overlap_within(existing, incoming, limit);
            &&& 0 <= best
            &&& best <= limit || best == 0
            &&& best > 0 ==> overlap_matches(existing, incoming, best)
            &&& forall|k: int| best < k <= limit ==> !overlap_matches(existing, incoming, k)
        }),
    decreases limit,
{
    if limit > 0 && !overlap_matches(existing, incoming, limit) {
        lemma_best_overlap_is_largest(existing, incoming, limit - 1);
    }
}

/// A matching overlap length above which no length matches is the best overlap.
pub proof fn lemma_best_overlap_unique(existing: Seq<Seq<char>>, incoming: Seq<Seq<char>>, k: int)
    requires
        overlap_matches(existing, incoming, k),
        forall|m: int| k < m ==> !overlap_matches(existing, incoming, m),
    ensures
        best_overlap(existing, incoming) == k,
{
    lemma_best_overlap_is_largest(existing, incoming, overlap_limit(existing, incoming));
}

/// Without any matching overlap length the best overlap is 0.
pub proof fn lemma_best_overlap_none(existing: Seq<Seq<char>>, incoming: Seq<Seq<char>>)
    requires
        forall|m: int| !overlap_matches(existing, incoming, m),
    ensures
        best_overlap(existing, incoming) == 0,
{
    lemma_best_overlap_is_largest(existing, incoming, overlap_limit(existing, incoming));
}

/// Words joined by single spaces neither start nor end with whitespace.
pub proof fn lemma_join_words_is_trimmed(words: Seq<Seq<char>>)
    requires
        forall|i: int| 0 <= i < words.len() ==> is_word(#[trigger] words[i]),
    ensures
        is_trimmed(join_words(words)),
        words.len() > 0 ==> join_words(words).len() > 0 && join_words(words).first()
            == words[0].first() && join_words(words).last() == words.last().last(),
    decreases words.len(),
{
    if words.len() == 1 {
        assert(is_word(words[0]));
    } else if words.len() > 1 {
        let front = words.drop_last();
        assert forall|i: int| 0 <= i < front.len() implies is_word(#[trigger] front[i]) by {
            assert(front[i] == words[i]);
        }
        lemma_join_words_is_trimmed(front);
        assert(is_word(words.last()));
        assert(is_word(words[0]));
        assert(front[0] == words[0]);
    }
}

/// What a chunk contributes neither starts nor ends with whitespace.
pub proof fn lemma_chunk_piece_is_trimmed(acc: Seq<char>, item: TranscriptModel)
    ensures
        is_trimmed(chunk_piece(acc, item)),
{
    let text = trim(item.text);
    lemma_trim_is_trimmed(item.text);
    if item.has_leading_overlap {
        let incoming = split_words(text);
        let k = best_overlap(split_words(acc), incoming);
        lemma_best_overlap_is_largest(
            split_words(acc),
            incoming,
            overlap_limit(split_words(acc), incoming),
        );
        if k > 0 {
            lemma_words_are_solid(text);
            let rest = incoming.skip(k);
            assert forall|i: int| 0 <= i < rest.len() implies is_word(#[trigger] rest[i]) by {
                assert(rest[i] == incoming[i + k]);
            }
            lemma_join_words_is_trimmed(rest);
        }
    }
}

/// The merged text never ends with whitespace, so the single space that
/// precedes each further contribution is the only separator at that join.
pub proof fn lemma_merge_has_clean_end(items: Seq<TranscriptModel>)
    ensures
        merge_spec(items).len() > 0 ==> !is_whitespace(merge_spec(items).last()),
    decreases items.len(),
{
    if items.len() == 1 {
        lemma_trim_is_trimmed(items[0].text);
    } else if items.len() > 1 {
        let acc = merge_spec(items.drop_last());
        lemma_merge_has_clean_end(items.drop_last());
        lemma_chunk_piece_is_trimmed(acc, items.last());
    }
}

/// Merging a single transcription returns its trimmed text.
pub proof fn lemma_merge_single(item: TranscriptModel)
    ensures
        merge_spec(seq![item]) == trim(item.text),
{
}

/// Two chunks whose texts share a `k`-word boundary: when the last `k` words
/// of the first equal the first `k` words of the second up to ASCII case, and
/// no longer run does, exactly those `k` words are missing from what the
/// second chunk adds.
pub proof fn lemma_merge_removes_shared_words(
    first: TranscriptModel,
    second: TranscriptModel,
    k: int,
)
    requires
        second.has_leading_overlap,
        overlap_matches(split_words(first.text), split_words(second.text), k),
        forall|m: int|
            k < m ==> !overlap_matches(split_words(first.text), split_words(second.text), m),
    ensures
        merge_spec(seq![first, second]) == join_piece(
            trim(first.text),
            join_words(split_words(second.text).skip(k)),
        ),
{
    let items = seq![first, second];
    assert(items.drop_last() =~= seq![first]);
    assert(items.last() == second);
    assert(merge_spec(items.drop_last()) == trim(first.text)) by {
        lemma_merge_single(first);
    }
    lemma_split_ignores_outer_whitespace(first.text);
    lemma_split_ignores_outer_whitespace(second.text);
    lemma_best_overlap_unique(split_words(first.text), split_words(second.text), k);
}

/// Two chunks without shared boundary words are concatenated with exactly one
/// separating space.
pub proof fn lemma_merge_without_shared_words(first: TranscriptModel, second: TranscriptModel)
    requires
        forall|m: int| !overlap_matches(split_words(first.text), split_words(second.text), m),
        trim(second.text).len() > 0,
    ensures
        merge_spec(seq![first, second]) == trim(first.text) + seq![' '] + trim(second.text),
{
    let items = seq![first, second];
    assert(items.drop_last() =~= seq![first]);
    assert(items.last() == second);
    assert(merge_spec(items.drop_last()) == trim(first.text)) by {
        lemma_merge_single(first);
    }
    lemma_split_ignores_outer_whitespace(first.text);
    lemma_split_ignores_outer_whitespace(second.text);
    lemma_best_overlap_none(split_words(first.text), split_words(second.text));
}

/// Counts the leading words of `incoming` that repeat the tail of `existing`.
pub fn find_overlap(existing: &Vec<Vec<char>>, incoming: &Vec<Vec<char>>) -> (best: usize)
    ensures
        best == best_overlap(views(existing@), views(incoming@)),
        best <= incoming.len(),
{
    let shorter: usize = if existing.len() <= incoming.len() {
        existing.len()
    } else {
        incoming.len()
    };
    let limit: usize = if shorter <= MAX_OVERLAP_WORDS {
        shorter
    } else {
        MAX_OVERLAP_WORDS
    };
    let ghost ev = views(existing@);
    let ghost iv = views(incoming@);
    let mut best: usize = 0;
    let mut k: usize = 1;
    while k <= limit
        invariant
            1 <= k <= limit + 1,
            limit == overlap_limit(ev, iv),
            limit <= existing.len(),
            limit <= incoming.len(),
            ev == views(existing@),
            iv == views(incoming@),
            best == best_overlap_within(ev, iv, k - 1),
            best < k,
        decreases limit + 1 - k,
    {
        let base: usize = existing.len() - k;
        let mut j: usize = 0;
        let mut all: bool = true;
        while j < k
            invariant
                j <= k <= limit,
                base == existing.len() - k,
                limit <= existing.len(),
                limit <= incoming.len(),
                ev == views(existing@),
                iv == views(incoming@),
                all ==> forall|m: int|
                    0 <= m < j ==> eq_ignore_ascii_case(ev[ev.len() - k + m], #[trigger] iv[m]),
                !all ==> exists|m: int|
                    0 <= m < k && !eq_ignore_ascii_case(ev[ev.len() - k + m], #[trigger] iv[m]),
            decreases k - j,
        {
            if !words_match(&existing[base + j], &incoming[j]) {
                all = false;
                assert(!eq_ignore_ascii_case(ev[ev.len() - k + j], iv[j as int]));
            }
            j += 1;
        }
        if all {
            assert(overlap_matches(ev, iv, k as int));
            best = k;
        } else {
            assert(!overlap_matches(ev, iv, k as int));
        }
        k += 1;
    }
    best
}

/// Removes from the beginning of `new_text` the words that repeat the end of
/// `existing`.
pub fn remove_overlap_chars(existing: &Vec<char>, new_text: &Vec<char>) -> (r: Vec<char>)
    ensures
        r@ == remove_overlap_spec(existing@, new_text@),
{
    let existing_words = split_chars(existing);
    let new_words = split_chars(new_text);
    let best = find_overlap(&existing_words, &new_words);
    if best > 0 {
        join_from(&new_words, best, ' ')
    } else {
        let mut r: Vec<char> = Vec::new();
        extend_from_range(&mut r, new_text, 0, new_text.len());
        assert(new_text@.subrange(0, new_text.len() as int) =~= new_text@);
        r
    }
}

/// Removes overlapping text from the beginning of `new_text` that matches the
/// end of `existing`.
pub fn remove_overlap(existing: &str, new_text: &str) -> (r: String)
    ensures
        r@ == remove_overlap_spec(existing@, new_text@),
{
    let existing_chars = chars_of(existing);
    let new_chars = chars_of(new_text);
    let kept = remove_overlap_chars(&existing_chars, &new_chars);
    string_of(&kept)
}

/// Merges transcription results, handling overlaps.
///
/// The transcriptions are taken in the order given; the caller sorts them by
/// index first.
pub fn merge_transcriptions(transcriptions: Vec<ChunkTranscription>) -> (r: String)
    ensures
        r@ == merge_spec(transcript_models(transcriptions@)),
{
    let ghost items = transcript_models(transcriptions@);
    let mut merged: Vec<char> = Vec::new();
    let mut i: usize = 0;
    while i < transcriptions.len()
        invariant
            i <= transcriptions.len(),
            items == transcript_models(transcriptions@),
            merged@ == merge_spec(items.take(i as int)),
        decreases transcriptions.len() - i,
    {
        let item = &transcriptions[i];
        let text = trim_chars(&chars_of(item.text.as_str()));
        proof {
            assert(items.take(i + 1).drop_last() =~= items.take(i as int));
            assert(items.take(i + 1).last() == item@);
        }
        if i == 0 {
            merged = text;
        } else {
            let piece = if item.has_leading_overlap {
                remove_overlap_chars(&merged, &text)
            } else {
                text
            };
            if piece.len() > 0 {
                merged.push(' ');
                extend_from_range(&mut merged, &piece, 0, piece.len());
                assert(piece@.subrange(0, piece.len() as int) =~= piece@);
            }
            proof {
                if i == 1 {
                    assert(items.take(1).len() == 1);
                }
            }
        }
        i += 1;
    }
    assert(items.take(transcriptions.len() as int) =~= items);
    string_of(&merged)
}

} // verus!
