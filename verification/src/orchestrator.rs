//! Running one transcription request per chunk under a concurrency cap and
//! turning the outcomes into one text or one error.

use crate::audio::AudioChunk;
use crate::error::PipelineError;
use crate::merge::{merge_spec, merge_transcriptions};
use crate::text::{
    chars_of, decimal, extend_from_range, join_from, join_with, push_decimal, push_text,
    string_of, views,
};
use crate::transcribe::{transcript_models, ChunkTranscription, TranscriptModel};
use vstd::prelude::*;

verus! {

/// Maximum number of transcription requests in flight at any instant.
pub const MAX_CONCURRENT_REQUESTS: usize = 3;

/// The indices never decrease along the sequence.
pub open spec fn sorted_by_index(items: Seq<TranscriptModel>) -> bool {
    forall|i: int, j: int| 0 <= i < j < items.len() ==> items[i].index <= items[j].index
}

/// `item` placed behind the last element whose index is not larger.
pub open spec fn insert_by_index(sorted: Seq<TranscriptModel>, item: TranscriptModel) -> Seq<
    TranscriptModel,
>
    decreases sorted.len(),
{
    if sorted.len() == 0 || sorted.last().index <= item.index {
        sorted.push(item)
    } else {
        insert_by_index(sorted.drop_last(), item).push(sorted.last())
    }
}

/// The items ordered by index; items with equal index keep their order.
pub open spec fn sort_by_index(items: Seq<TranscriptModel>) -> Seq<TranscriptModel>
    decreases items.len(),
{
    if items.len() == 0 {
        Seq::empty()
    } else {
        insert_by_index(sort_by_index(items.drop_last()), items.last())
    }
}

/// Inserting at the position behind which every index is larger, and before
/// which the index is not, is what `insert_by_index` does.
pub proof fn lemma_insert_position(sorted: Seq<TranscriptModel>, item: TranscriptModel, pos: int)
    requires
        0 <= pos <= sorted.len(),
        forall|k: int| pos <= k < sorted.len() ==> (#[trigger] sorted[k]).index > item.index,
        pos > 0 ==> sorted[pos - 1].index <= item.index,
    ensures
        insert_by_index(sorted, item) == sorted.insert(pos, item),
    decreases sorted.len() - pos,
{
    if pos == sorted.len() {
        assert(sorted.insert(pos, item) =~= sorted.push(item));
    } else {
        let front = sorted.drop_last();
        assert(sorted.last() == sorted[sorted.len() - 1]);
        lemma_insert_position(front, item, pos);
        assert(front.insert(pos, item).push(sorted.last()) =~= sorted.insert(pos, item));
    }
}

/// Inserting into a sorted sequence keeps it sorted and adds exactly the item.
pub proof fn lemma_insert_keeps_sorted(sorted: Seq<TranscriptModel>, item: TranscriptModel)
    requires
        sorted_by_index(sorted),
    ensures
        sorted_by_index(insert_by_index(sorted, item)),
        insert_by_index(sorted, item).to_multiset() == sorted.to_multiset().insert(item),
        insert_by_index(sorted, item).len() == sorted.len() + 1,
    decreases sorted.len(),
{
    broadcast use vstd::seq_lib::group_to_multiset_ensures;

    if sorted.len() == 0 || sorted.last().index <= item.index {
    } else {
        let front = sorted.drop_last();
        let placed = insert_by_index(front, item);
        lemma_insert_keeps_sorted(front, item);
        assert(sorted =~= front.push(sorted.last()));
        let result = placed.push(sorted.last());
        assert forall|i: int, j: int| 0 <= i < j < result.len() implies result[i].index
            <= result[j].index by {
            if j == result.len() - 1 {
                assert(placed.to_multiset().count(placed[i]) > 0);
                if placed[i] != item {
                    assert(front.to_multiset().count(placed[i]) > 0);
                    let k = choose|k: int| 0 <= k < front.len() && front[k] == placed[i];
                    assert(sorted[k] == front[k]);
                }
            }
        }
        assert(result.to_multiset() =~= sorted.to_multiset().insert(item));
    }
}

/// The sorted items are in index order and are the given items, each as
/// often as it was given.
pub proof fn lemma_sort_is_sorted_permutation(items: Seq<TranscriptModel>)
    ensures
        sorted_by_index(sort_by_index(items)),
        sort_by_index(items).to_multiset() == items.to_multiset(),
        sort_by_index(items).len() == items.len(),
    decreases items.len(),
{
    broadcast use vstd::seq_lib::group_to_multiset_ensures;

    if items.len() > 0 {
        let front = items.drop_last();
        lemma_sort_is_sorted_permutation(front);
        lemma_insert_keeps_sorted(sort_by_index(front), items.last());
        assert(items =~= front.push(items.last()));
    }
}

/// Items that arrive in index order are left as they are.
pub proof fn lemma_sort_keeps_sorted_input(items: Seq<TranscriptModel>)
    requires
        sorted_by_index(items),
    ensures
        sort_by_index(items) == items,
    decreases items.len(),
{
    if items.len() > 0 {
        let front = items.drop_last();
        lemma_sort_keeps_sorted_input(front);
        if front.len() > 0 {
            assert(front.last() == items[items.len() - 2]);
        }
        assert(front.push(items.last()) =~= items);
    }
}

/// Orders transcriptions by chunk index; equal indices keep their order.
pub fn sort_transcriptions(items: Vec<ChunkTranscription>) -> (sorted: Vec<ChunkTranscription>)
    ensures
        transcript_models(sorted@) == sort_by_index(transcript_models(items@)),
{
    let ghost given = transcript_models(items@);
    let mut sorted: Vec<ChunkTranscription> = Vec::new();
    for item in it: items
        invariant
            given == transcript_models(it.seq()),
            transcript_models(sorted@) == sort_by_index(given.take(it.index() as int)),
    {
        let ghost placed = transcript_models(sorted@);
        let mut pos: usize = sorted.len();
        while pos > 0 && sorted[pos - 1].index > item.index
            invariant
                pos <= sorted.len(),
                placed == transcript_models(sorted@),
                forall|k: int|
                    pos <= k < placed.len() ==> (#[trigger] placed[k]).index > item@.index,
            decreases pos,
        {
            pos -= 1;
        }
        proof {
            let index = it.index() as int;
            assert(given.take(index + 1).drop_last() =~= given.take(index));
            assert(given.take(index + 1).last() == item@);
            lemma_insert_position(placed, item@, pos as int);
        }
        sorted.insert(pos, item);
        assert(transcript_models(sorted@) =~= placed.insert(pos as int, item@));
    }
    assert(given.take(given.len() as int) =~= given);
    sorted
}

/// Mathematical model of what one request came to: the transcription, or the
/// message of the error.
pub open spec fn outcome_model(outcome: Result<ChunkTranscription, PipelineError>) -> Result<
    TranscriptModel,
    Seq<char>,
> {
    match outcome {
        Ok(transcription) => Ok(transcription@),
        Err(error) => Err(error.message_spec()),
    }
}

/// The models of a sequence of outcomes.
pub open spec fn outcome_models(
    outcomes: Seq<Result<ChunkTranscription, PipelineError>>,
) -> Seq<Result<TranscriptModel, Seq<char>>> {
    outcomes.map_values(|o: Result<ChunkTranscription, PipelineError>| outcome_model(o))
}

/// The transcriptions among the outcomes, in the order of the outcomes.
pub open spec fn successes(outcomes: Seq<Result<TranscriptModel, Seq<char>>>) -> Seq<
    TranscriptModel,
>
    decreases outcomes.len(),
{
    if outcomes.len() == 0 {
        Seq::empty()
    } else {
        let front = successes(outcomes.drop_last());
        match outcomes.last() {
            Ok(transcription) => front.push(transcription),
            Err(_) => front,
        }
    }
}

/// The error messages among the outcomes, in the order of the outcomes.
pub open spec fn failures(outcomes: Seq<Result<TranscriptModel, Seq<char>>>) -> Seq<Seq<char>>
    decreases outcomes.len(),
{
    if outcomes.len() == 0 {
        Seq::empty()
    } else {
        let front = failures(outcomes.drop_last());
        match outcomes.last() {
            Ok(_) => front,
            Err(message) => front.push(message),
        }
    }
}

/// The combined diagnostic: how many of how many chunks failed, then one
/// line per failure.
pub open spec fn failure_report(total: nat, messages: Seq<Seq<char>>) -> Seq<char> {
    "Failed to transcribe "@ + decimal(messages.len()) + " of "@ + decimal(total)
        + " chunks:\n"@ + join_with(messages, '\n')
}

/// What the outcomes of all requests amount to: the report of the failures
/// if there is any, else the merged text of the transcriptions in index
/// order.
pub open spec fn collected(outcomes: Seq<Result<TranscriptModel, Seq<char>>>) -> Result<
    Seq<char>,
    Seq<char>,
> {
    if failures(outcomes).len() > 0 {
        Err(failure_report(outcomes.len(), failures(outcomes)))
    } else {
        Ok(merge_spec(sort_by_index(successes(outcomes))))
    }
}

/// Each outcome is counted once, as a success or as a failure.
pub proof fn lemma_outcomes_partition(outcomes: Seq<Result<TranscriptModel, Seq<char>>>)
    ensures
        successes(outcomes).len() + failures(outcomes).len() == outcomes.len(),
        failures(outcomes).len() > 0 <==> exists|i: int|
            0 <= i < outcomes.len() && (#[trigger] outcomes[i]) is Err,
    decreases outcomes.len(),
{
    if outcomes.len() > 0 {
        let front = outcomes.drop_last();
        lemma_outcomes_partition(front);
        if failures(front).len() > 0 {
            let i = choose|i: int| 0 <= i < front.len() && (#[trigger] front[i]) is Err;
            assert(outcomes[i] == front[i]);
        }
        if outcomes.last() is Err {
            assert(outcomes[outcomes.len() - 1] is Err);
        }
        if failures(outcomes).len() == 0 {
            assert forall|i: int| 0 <= i < outcomes.len() implies !((#[trigger] outcomes[i])
                is Err) by {
                if i < front.len() {
                    assert(front[i] == outcomes[i]);
                }
            }
        }
    }
}

/// If the transcription of any one chunk fails, the whole fails, and only
/// then: no text is produced from the chunks that succeeded.
pub proof fn lemma_one_failure_fails_all(outcomes: Seq<Result<TranscriptModel, Seq<char>>>)
    ensures
        collected(outcomes) is Err <==> exists|i: int|
            0 <= i < outcomes.len() && (#[trigger] outcomes[i]) is Err,
{
    lemma_outcomes_partition(outcomes);
}

/// Without a failure the text is merged from all transcriptions in index
/// order, whatever the order of the outcomes.
pub proof fn lemma_merged_in_index_order(outcomes: Seq<Result<TranscriptModel, Seq<char>>>)
    requires
        forall|i: int| 0 <= i < outcomes.len() ==> (#[trigger] outcomes[i]) is Ok,
    ensures
        ({
            let ordered = sort_by_index(successes(outcomes));
            &&& collected(outcomes) == Ok::<Seq<char>, Seq<char>>(merge_spec(ordered))
            &&& sorted_by_index(ordered)
            &&& ordered.len() == outcomes.len()
            &&& ordered.to_multiset() == successes(outcomes).to_multiset()
        }),
{
    lemma_outcomes_partition(outcomes);
    lemma_sort_is_sorted_permutation(successes(outcomes));
}

/// Turns the outcomes of all requests into the merged text, or into one
/// error that lists every failure.
pub fn collect_outcomes(outcomes: Vec<Result<ChunkTranscription, PipelineError>>) -> (r: Result<
    String,
    PipelineError,
>)
    ensures
        match collected(outcome_models(outcomes@)) {
            Ok(text) => r matches Ok(merged) && merged@ == text,
            Err(report) => r matches Err(PipelineError::Transcription(detail)) && detail@
                == report,
        },
{
    let ghost given = outcome_models(outcomes@);
    let total: usize = outcomes.len();
    let mut results: Vec<ChunkTranscription> = Vec::new();
    let mut errors: Vec<Vec<char>> = Vec::new();
    for outcome in it: outcomes
        invariant
            given == outcome_models(it.seq()),
            transcript_models(results@) == successes(given.take(it.index() as int)),
            views(errors@) == failures(given.take(it.index() as int)),
    {
        let ghost found = transcript_models(results@);
        let ghost failed = views(errors@);
        proof {
            let index = it.index() as int;
            assert(given.take(index + 1).drop_last() =~= given.take(index));
            assert(given.take(index + 1).last() == outcome_model(outcome));
        }
        match outcome {
            Ok(transcription) => {
                results.push(transcription);
                assert(transcript_models(results@) =~= found.push(transcription@));
            },
            Err(error) => {
                let message = error.message();
                let chars = chars_of(message.as_str());
                errors.push(chars);
                assert(views(errors@) =~= failed.push(error.message_spec()));
            },
        }
    }
    assert(given.take(given.len() as int) =~= given);
    if errors.len() > 0 {
        let mut report: Vec<char> = Vec::new();
        push_text(&mut report, "Failed to transcribe ");
        push_decimal(&mut report, errors.len() as u128);
        push_text(&mut report, " of ");
        push_decimal(&mut report, total as u128);
        push_text(&mut report, " chunks:\n");
        let lines = join_from(&errors, 0, '\n');
        extend_from_range(&mut report, &lines, 0, lines.len());
        proof {
            assert(lines@.subrange(0, lines.len() as int) =~= lines@);
            assert(views(errors@).skip(0) =~= views(errors@));
        }
        Err(PipelineError::Transcription(string_of(&report)))
    } else {
        let sorted = sort_transcriptions(results);
        Ok(merge_transcriptions(sorted))
    }
}

/// Where the request for one chunk stands.
#[derive(Debug, Clone, PartialEq, Eq)]
pub enum TaskState {
    /// Created, waiting for a permit.
    Waiting,
    /// Holds a permit; the request is on its way.
    InFlight,
    /// The request returned this transcript.
    Succeeded(String),
    /// The request failed, or its task ended abnormally.
    Failed(PipelineError),
}

/// Mathematical model of a [`TaskState`].
pub ghost enum TaskStateModel {
    Waiting,
    InFlight,
    Succeeded(Seq<char>),
    Failed(Seq<char>),
}

impl View for TaskState {
    type V = TaskStateModel;

    open spec fn view(&self) -> TaskStateModel {
        match self {
            TaskState::Waiting => TaskStateModel::Waiting,
            TaskState::InFlight => TaskStateModel::InFlight,
            TaskState::Succeeded(text) => TaskStateModel::Succeeded(text@),
            TaskState::Failed(error) => TaskStateModel::Failed(error.message_spec()),
        }
    }
}

/// The request for one chunk: which chunk it is for, and where it stands.
pub struct Task {
    index: usize,
    has_leading_overlap: bool,
    state: TaskState,
}

/// Mathematical model of a [`Task`].
pub ghost struct TaskModel {
    pub index: nat,
    pub has_leading_overlap: bool,
    pub state: TaskStateModel,
}

impl View for Task {
    type V = TaskModel;

    closed spec fn view(&self) -> TaskModel {
        TaskModel {
            index: self.index as nat,
            has_leading_overlap: self.has_leading_overlap,
            state: self.state@,
        }
    }
}

/// The models of a sequence of tasks.
pub open spec fn task_models(tasks: Seq<Task>) -> Seq<TaskModel> {
    tasks.map_values(|t: Task| t@)
}

/// How many of the tasks hold a permit.
pub open spec fn count_in_flight(tasks: Seq<TaskModel>) -> nat
    decreases tasks.len(),
{
    if tasks.len() == 0 {
        0
    } else {
        count_in_flight(tasks.drop_last()) + if tasks.last().state is InFlight {
            1nat
        } else {
            0nat
        }
    }
}

/// How many of the tasks have succeeded.
pub open spec fn count_succeeded(tasks: Seq<TaskModel>) -> nat
    decreases tasks.len(),
{
    if tasks.len() == 0 {
        0
    } else {
        count_succeeded(tasks.drop_last()) + if tasks.last().state is Succeeded {
            1nat
        } else {
            0nat
        }
    }
}

/// Every task has succeeded or failed.
pub open spec fn all_settled(tasks: Seq<TaskModel>) -> bool {
    forall|i: int|
        0 <= i < tasks.len() ==> (#[trigger] tasks[i]).state is Succeeded || tasks[i].state
            is Failed
}

/// Whether the task in `slot` may start: it is waiting and a permit is free.
pub open spec fn may_start(tasks: Seq<TaskModel>, slot: int) -> bool {
    &&& 0 <= slot < tasks.len()
    &&& tasks[slot].state is Waiting
    &&& count_in_flight(tasks) < MAX_CONCURRENT_REQUESTS
}

/// The tasks after the one in `slot` was given a permit.
pub open spec fn after_start(tasks: Seq<TaskModel>, slot: int) -> Seq<TaskModel> {
    if may_start(tasks, slot) {
        tasks.update(slot, TaskModel { state: TaskStateModel::InFlight, ..tasks[slot] })
    } else {
        tasks
    }
}

/// The state in which a request that ended with `outcome` leaves its task.
pub open spec fn settled_state(outcome: Result<String, PipelineError>) -> TaskStateModel {
    match outcome {
        Ok(text) => TaskStateModel::Succeeded(text@),
        Err(error) => TaskStateModel::Failed(error.message_spec()),
    }
}

/// Whether the task in `slot` is on its way, so that an outcome is due.
pub open spec fn may_complete(tasks: Seq<TaskModel>, slot: int) -> bool {
    &&& 0 <= slot < tasks.len()
    &&& tasks[slot].state is InFlight
}

/// The tasks after the request of the one in `slot` ended in `state`.
pub open spec fn after_complete(tasks: Seq<TaskModel>, slot: int, state: TaskStateModel) -> Seq<
    TaskModel,
> {
    if may_complete(tasks, slot) {
        tasks.update(slot, TaskModel { state, ..tasks[slot] })
    } else {
        tasks
    }
}

/// What each task came to, in the order of submission.
pub open spec fn task_outcomes(tasks: Seq<TaskModel>) -> Seq<Result<TranscriptModel, Seq<char>>> {
    tasks.map_values(
        |t: TaskModel|
            match t.state {
                TaskStateModel::Succeeded(text) => Ok(
                    TranscriptModel {
                        index: t.index,
                        text,
                        has_leading_overlap: t.has_leading_overlap,
                    },
                ),
                TaskStateModel::Failed(message) => Err(message),
                _ => Err(Seq::empty()),
            },
    )
}

/// Replacing one task changes each count by what that task contributes.
pub proof fn lemma_counts_after_update(tasks: Seq<TaskModel>, slot: int, task: TaskModel)
    requires
        0 <= slot < tasks.len(),
    ensures
        count_in_flight(tasks.update(slot, task)) + (if tasks[slot].state is InFlight {
            1nat
        } else {
            0nat
        }) == count_in_flight(tasks) + (if task.state is InFlight {
            1nat
        } else {
            0nat
        }),
        count_succeeded(tasks.update(slot, task)) + (if tasks[slot].state is Succeeded {
            1nat
        } else {
            0nat
        }) == count_succeeded(tasks) + (if task.state is Succeeded {
            1nat
        } else {
            0nat
        }),
    decreases tasks.len(),
{
    let changed = tasks.update(slot, task);
    if slot == tasks.len() - 1 {
        assert(changed.drop_last() =~= tasks.drop_last());
    } else {
        lemma_counts_after_update(tasks.drop_last(), slot, task);
        assert(changed.drop_last() =~= tasks.drop_last().update(slot, task));
    }
}

/// The counts never exceed the number of tasks.
pub proof fn lemma_counts_bounded(tasks: Seq<TaskModel>)
    ensures
        count_in_flight(tasks) + count_succeeded(tasks) <= tasks.len(),
    decreases tasks.len(),
{
    if tasks.len() > 0 {
        lemma_counts_bounded(tasks.drop_last());
    }
}

/// Starting and completing tasks never brings more than the permitted
/// number of requests in flight.
pub proof fn lemma_permits_are_respected(
    tasks: Seq<TaskModel>,
    slot: int,
    state: TaskStateModel,
)
    requires
        count_in_flight(tasks) <= MAX_CONCURRENT_REQUESTS,
        !(state is InFlight),
    ensures
        count_in_flight(after_start(tasks, slot)) <= MAX_CONCURRENT_REQUESTS,
        count_in_flight(after_complete(tasks, slot, state)) <= count_in_flight(tasks),
{
    if may_start(tasks, slot) {
        lemma_counts_after_update(
            tasks,
            slot,
            TaskModel { state: TaskStateModel::InFlight, ..tasks[slot] },
        );
    }
    if may_complete(tasks, slot) {
        lemma_counts_after_update(tasks, slot, TaskModel { state, ..tasks[slot] });
    }
}

/// Progress never goes back: granting a permit leaves the number of
/// transcribed chunks as it is, and an outcome raises it by one when it is a
/// success for a request in flight, and leaves it otherwise.
pub proof fn lemma_progress_is_monotonic(tasks: Seq<TaskModel>, slot: int, state: TaskStateModel)
    requires
        !(state is InFlight),
        !(state is Waiting),
    ensures
        count_succeeded(after_start(tasks, slot)) == count_succeeded(tasks),
        count_succeeded(after_complete(tasks, slot, state)) == count_succeeded(tasks) + (
        if may_complete(tasks, slot) && state is Succeeded {
            1nat
        } else {
            0nat
        }),
{
    if may_start(tasks, slot) {
        lemma_counts_after_update(
            tasks,
            slot,
            TaskModel { state: TaskStateModel::InFlight, ..tasks[slot] },
        );
    }
    if may_complete(tasks, slot) {
        lemma_counts_after_update(tasks, slot, TaskModel { state, ..tasks[slot] });
    }
}

/// The order in which two requests complete does not matter: either order
/// leaves the same tasks, and so the same final text.
pub proof fn lemma_completion_order_is_irrelevant(
    tasks: Seq<TaskModel>,
    first: int,
    first_state: TaskStateModel,
    second: int,
    second_state: TaskStateModel,
)
    requires
        first != second,
    ensures
        after_complete(after_complete(tasks, first, first_state), second, second_state)
            == after_complete(after_complete(tasks, second, second_state), first, first_state),
{
    let one = after_complete(after_complete(tasks, first, first_state), second, second_state);
    let other = after_complete(after_complete(tasks, second, second_state), first, first_state);
    assert(one =~= other);
}

/// The requests for the chunks of one recording.
///
/// Every task exists from the start and waits for one of the permits; at
/// most `MAX_CONCURRENT_REQUESTS` tasks hold one at any time.
pub struct Orchestrator {
    tasks: Vec<Task>,
}

impl View for Orchestrator {
    type V = Seq<TaskModel>;

    closed spec fn view(&self) -> Seq<TaskModel> {
        task_models(self.tasks@)
    }
}

impl Orchestrator {
    #[verifier::type_invariant]
    spec fn permits_respected(self) -> bool {
        count_in_flight(task_models(self.tasks@)) <= MAX_CONCURRENT_REQUESTS
    }

    /// One waiting task per chunk, in the order of the chunks.
    pub fn new(chunks: &Vec<AudioChunk>) -> (orchestrator: Self)
        ensures
            orchestrator@.len() == chunks.len(),
            forall|i: int|
                0 <= i < chunks.len() ==> #[trigger] orchestrator@[i] == (TaskModel {
                    index: chunks[i].index as nat,
                    has_leading_overlap: chunks[i].has_leading_overlap,
                    state: TaskStateModel::Waiting,
                }),
    {
        let mut tasks: Vec<Task> = Vec::new();
        let mut i: usize = 0;
        while i < chunks.len()
            invariant
                i <= chunks.len(),
                tasks.len() == i,
                count_in_flight(task_models(tasks@)) == 0,
                forall|k: int|
                    0 <= k < i ==> #[trigger] task_models(tasks@)[k] == (TaskModel {
                        index: chunks[k].index as nat,
                        has_leading_overlap: chunks[k].has_leading_overlap,
                        state: TaskStateModel::Waiting,
                    }),
            decreases chunks.len() - i,
        {
            let ghost before = task_models(tasks@);
            let task = Task {
                index: chunks[i].index,
                has_leading_overlap: chunks[i].has_leading_overlap,
                state: TaskState::Waiting,
            };
            tasks.push(task);
            proof {
                assert(task_models(tasks@) =~= before.push(task@));
                assert(task_models(tasks@).drop_last() =~= before);
            }
            i += 1;
        }
        Orchestrator { tasks }
    }

    /// Number of chunks.
    pub fn total(&self) -> (n: usize)
        ensures
            n == self@.len(),
    {
        self.tasks.len()
    }

    /// Number of requests that hold a permit: never more than
    /// `MAX_CONCURRENT_REQUESTS`.
    pub fn in_flight(&self) -> (n: usize)
        ensures
            n == count_in_flight(self@),
            n <= MAX_CONCURRENT_REQUESTS,
    {
        proof {
            use_type_invariant(self);
        }
        let mut n: usize = 0;
        let mut i: usize = 0;
        while i < self.tasks.len()
            invariant
                i <= self.tasks.len(),
                n == count_in_flight(task_models(self.tasks@).take(i as int)),
                n <= i,
            decreases self.tasks.len() - i,
        {
            proof {
                let models = task_models(self.tasks@);
                assert(models.take(i + 1).drop_last() =~= models.take(i as int));
            }
            if let TaskState::InFlight = self.tasks[i].state {
                n += 1;
            }
            i += 1;
        }
        assert(task_models(self.tasks@).take(self.tasks.len() as int) =~= task_models(
            self.tasks@,
        ));
        n
    }

    /// Number of chunks transcribed so far.
    pub fn completed(&self) -> (n: usize)
        ensures
            n == count_succeeded(self@),
    {
        let mut n: usize = 0;
        let mut i: usize = 0;
        while i < self.tasks.len()
            invariant
                i <= self.tasks.len(),
                n == count_succeeded(task_models(self.tasks@).take(i as int)),
                n <= i,
            decreases self.tasks.len() - i,
        {
            proof {
                let models = task_models(self.tasks@);
                assert(models.take(i + 1).drop_last() =~= models.take(i as int));
            }
            if let TaskState::Succeeded(_) = self.tasks[i].state {
                n += 1;
            }
            i += 1;
        }
        assert(task_models(self.tasks@).take(self.tasks.len() as int) =~= task_models(
            self.tasks@,
        ));
        n
    }

    /// Whether every request has succeeded or failed.
    pub fn is_settled(&self) -> (r: bool)
        ensures
            r == all_settled(self@),
    {
        let mut i: usize = 0;
        while i < self.tasks.len()
            invariant
                i <= self.tasks.len(),
                forall|k: int|
                    0 <= k < i ==> (#[trigger] task_models(self.tasks@)[k]).state is Succeeded
                        || task_models(self.tasks@)[k].state is Failed,
            decreases self.tasks.len() - i,
        {
            match self.tasks[i].state {
                TaskState::Succeeded(_) => {},
                TaskState::Failed(_) => {},
                _ => {
                    assert(!(task_models(self.tasks@)[i as int].state is Succeeded));
                    return false;
                },
            }
            i += 1;
        }
        true
    }

    /// Asks for a permit for the task in `slot`.
    ///
    /// The permit is granted when the task is waiting and fewer than
    /// `MAX_CONCURRENT_REQUESTS` requests are in flight; the task is then in
    /// flight. Otherwise nothing changes.
    pub fn try_start(&mut self, slot: usize) -> (granted: bool)
        ensures
            granted == may_start(old(self)@, slot as int),
            final(self)@ == after_start(old(self)@, slot as int),
            count_in_flight(final(self)@) <= MAX_CONCURRENT_REQUESTS,
    {
        proof {
            use_type_invariant(&*self);
        }
        if slot >= self.tasks.len() {
            return false;
        }
        let waiting = match self.tasks[slot].state {
            TaskState::Waiting => true,
            _ => false,
        };
        if !waiting || self.in_flight() >= MAX_CONCURRENT_REQUESTS {
            return false;
        }
        let ghost before = task_models(self.tasks@);
        proof {
            lemma_counts_after_update(
                before,
                slot as int,
                TaskModel { state: TaskStateModel::InFlight, ..before[slot as int] },
            );
        }
        let index = self.tasks[slot].index;
        let has_leading_overlap = self.tasks[slot].has_leading_overlap;
        let mut tasks: Vec<Task> = Vec::new();
        std::mem::swap(&mut self.tasks, &mut tasks);
        tasks.set(slot, Task { index, has_leading_overlap, state: TaskState::InFlight });
        assert(task_models(tasks@) =~= before.update(
            slot as int,
            TaskModel { state: TaskStateModel::InFlight, ..before[slot as int] },
        ));
        self.tasks = tasks;
        true
    }

    /// Records the outcome of the request for the task in `slot` and gives
    /// its permit back.
    ///
    /// On success the progress is returned: how many chunks are transcribed
    /// by now, and how many there are. A failure reports no progress. An
    /// outcome for a task that is not in flight changes nothing.
    pub fn complete(&mut self, slot: usize, outcome: Result<String, PipelineError>) -> (progress:
        Option<(usize, usize)>)
        ensures
            final(self)@ == after_complete(old(self)@, slot as int, settled_state(outcome)),
            count_in_flight(final(self)@) <= MAX_CONCURRENT_REQUESTS,
            progress == if may_complete(old(self)@, slot as int) && outcome is Ok {
                Some((
                    (count_succeeded(old(self)@) + 1) as usize,
                    old(self)@.len() as usize,
                ))
            } else {
                None
            },
    {
        proof {
            use_type_invariant(&*self);
        }
        if slot >= self.tasks.len() {
            return None;
        }
        let in_flight = match self.tasks[slot].state {
            TaskState::InFlight => true,
            _ => false,
        };
        if !in_flight {
            return None;
        }
        let ghost before = task_models(self.tasks@);
        proof {
            lemma_counts_after_update(
                before,
                slot as int,
                TaskModel { state: settled_state(outcome), ..before[slot as int] },
            );
            lemma_counts_bounded(before);
        }
        let index = self.tasks[slot].index;
        let has_leading_overlap = self.tasks[slot].has_leading_overlap;
        let succeeded = outcome.is_ok();
        let state = match outcome {
            Ok(text) => TaskState::Succeeded(text),
            Err(error) => TaskState::Failed(error),
        };
        let mut tasks: Vec<Task> = Vec::new();
        std::mem::swap(&mut self.tasks, &mut tasks);
        tasks.set(slot, Task { index, has_leading_overlap, state });
        assert(task_models(tasks@) =~= before.update(
            slot as int,
            TaskModel { state: settled_state(outcome), ..before[slot as int] },
        ));
        self.tasks = tasks;
        if succeeded {
            Some((self.completed(), self.tasks.len()))
        } else {
            None
        }
    }

    /// The merged text of all chunks in index order, or one error that lists
    /// every failure.
    pub fn finish(self) -> (r: Result<String, PipelineError>)
        requires
            all_settled(self@),
        ensures
            match collected(task_outcomes(self@)) {
                Ok(text) => r matches Ok(merged) && merged@ == text,
                Err(report) => r matches Err(PipelineError::Transcription(detail)) && detail@
                    == report,
            },
    {
        let ghost models = self@;
        let mut outcomes: Vec<Result<ChunkTranscription, PipelineError>> = Vec::new();
        for task in it: self.tasks
            invariant
                models == task_models(it.seq()),
                all_settled(models),
                outcome_models(outcomes@) == task_outcomes(models.take(it.index() as int)),
        {
            let ghost before = outcome_models(outcomes@);
            let ghost index = it.index() as int;
            assert(models[index] == task@);
            assert(models.take(index + 1) =~= models.take(index).push(task@));
            let outcome = match task.state {
                TaskState::Succeeded(text) => Ok(
                    ChunkTranscription {
                        index: task.index,
                        text,
                        has_leading_overlap: task.has_leading_overlap,
                    },
                ),
                TaskState::Failed(error) => Err(error),
                _ => vstd::pervasive::unreached(),
            };
            outcomes.push(outcome);
            assert(outcome_models(outcomes@) =~= before.push(outcome_model(outcome)));
            assert(task_outcomes(models.take(index + 1)) =~= task_outcomes(
                models.take(index),
            ).push(outcome_model(outcome)));
        }
        assert(models.take(models.len() as int) =~= models);
        collect_outcomes(outcomes)
    }
}

} // verus!
