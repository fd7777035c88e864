//! The decisions that are taken while a file is transferred.
use crate::chunks::Chunk;
use crate::crypto::{decrypt_range, range_decrypted, FileCrypto};
use crate::error::{DownloadError, ErrorView};
use crate::tasks::{status_set, untouched, AppState, StateView, TaskControl, TaskStatus};
use crate::text::{decimal, push_decimal};
use vstd::prelude::*;

verus! {

/// The number of times that a chunk is tried.
pub const CHUNK_ATTEMPTS: u64 = 4;

/// The pause of a low-impact download after each chunk, in milliseconds.
pub const LOW_CPU_CHUNK_COOLDOWN_MS: u64 = 8;

/// What a task does at a point where the user may have paused or cancelled it.
#[derive(Debug, Clone, Copy, PartialEq, Eq, Structural)]
pub enum GateStep {
    /// It ends.
    Cancelled,
    /// It goes on.
    Pass,
    /// It goes on, and takes up the status again that it had before it waited.
    Restore,
    /// It waits until the user has changed something.
    Wait,
}

/// What a task does at such a point, at first or after it has waited. A task that is still paused
/// after it was woken comes to the point anew.
pub open spec fn gate_step(control: TaskControl, woken: bool) -> GateStep {
    if control.cancelled {
        GateStep::Cancelled
    } else if control.paused {
        GateStep::Wait
    } else if woken {
        GateStep::Restore
    } else {
        GateStep::Pass
    }
}

/// What a task does at a point where the user may have paused or cancelled it.
pub fn wait_if_paused(control: &TaskControl, woken: bool) -> (step: GateStep)
    ensures
        step == gate_step(*control, woken),
{
    if control.is_cancelled() {
        GateStep::Cancelled
    } else if control.is_paused() {
        GateStep::Wait
    } else if woken {
        GateStep::Restore
    } else {
        GateStep::Pass
    }
}

/// What the user wants of a task: that it runs, where nothing else is known.
pub open spec fn wanted_of(state: StateView, id: Seq<char>) -> TaskControl {
    if state.controls.contains_key(id) {
        state.controls[id]
    } else {
        TaskControl { cancelled: false, paused: false }
    }
}

/// The program after a task has come to such a point: a task that waits shows that it is paused,
/// and one that goes on after it has waited takes up its status again.
pub open spec fn gate_reached(
    state: StateView,
    id: Seq<char>,
    woken: bool,
    resume_status: TaskStatus,
    now: u128,
) -> StateView {
    match gate_step(wanted_of(state, id), woken) {
        GateStep::Wait => status_set(state, id, TaskStatus::Paused, now),
        GateStep::Restore => status_set(state, id, resume_status, now),
        _ => state,
    }
}

impl AppState {
    /// Brings a task to a point where the user may have paused or cancelled it, and says what the
    /// task does there. A task that goes on after it has waited takes up `resume_status`.
    pub fn reach_gate(
        &mut self,
        id: &str,
        woken: bool,
        resume_status: TaskStatus,
        now: u128,
    ) -> (step: GateStep)
        requires
            old(self).wf(),
        ensures
            final(self).wf(),
            step == gate_step(wanted_of(old(self)@, id@), woken),
            final(self)@ == gate_reached(old(self)@, id@, woken, resume_status, now),
    {
        let control = match self.get_control(id) {
            Ok(found) => found,
            Err(_) => TaskControl::new(),
        };
        let step = wait_if_paused(&control, woken);
        match step {
            GateStep::Wait => self.set_status(id, TaskStatus::Paused, now),
            GateStep::Restore => self.set_status(id, resume_status, now),
            _ => {},
        }
        step
    }
}

/// A task that waits shows that it is paused, one that goes on after it has waited shows what it
/// does, and no other change is made of its status.
pub proof fn waiting_tasks_show_it(
    state: StateView,
    id: Seq<char>,
    woken: bool,
    resume_status: TaskStatus,
    now: u128,
)
    requires
        state.tasks.contains_key(id),
    ensures
        gate_reached(state, id, woken, resume_status, now).tasks[id].status == (match gate_step(
            wanted_of(state, id),
            woken,
        ) {
            GateStep::Wait => TaskStatus::Paused,
            GateStep::Restore => resume_status,
            _ => state.tasks[id].status,
        }),
        gate_reached(state, id, woken, resume_status, now).controls == state.controls,
{
}

/// No cancelled task passes, and no paused task passes; every other does.
pub proof fn gate_lets_through_only_wanted_tasks(control: TaskControl, woken: bool)
    ensures
        (gate_step(control, woken) == GateStep::Pass || gate_step(control, woken)
            == GateStep::Restore) <==> !control.cancelled && !control.paused,
{
}

/// What a task does that was given one of the places in which tasks run.
#[derive(Debug, Clone, Copy, PartialEq, Eq, Structural)]
pub enum SlotStep {
    /// It ends.
    Cancelled,
    /// It gives the place back, and waits for another.
    GiveBack,
    /// It runs.
    Run,
}

/// What a task does that was given one of the places in which tasks run.
pub fn acquire_task_slot(control: &TaskControl) -> (step: SlotStep)
    ensures
        step == (if control.cancelled {
            SlotStep::Cancelled
        } else if control.paused {
            SlotStep::GiveBack
        } else {
            SlotStep::Run
        }),
{
    if control.is_cancelled() {
        SlotStep::Cancelled
    } else if control.is_paused() {
        SlotStep::GiveBack
    } else {
        SlotStep::Run
    }
}

/// How long to wait, in milliseconds, before a chunk is tried again that has failed after
/// `attempt` others. The last try is not followed by another.
pub open spec fn retry_delay(attempt: nat) -> Option<int> {
    if attempt < CHUNK_ATTEMPTS - 1 {
        Some(350 * (attempt as int + 1))
    } else {
        None
    }
}

/// How long to wait before a chunk is tried again.
pub fn chunk_retry_delay(attempt: u64) -> (delay: Option<u64>)
    ensures
        match delay {
            Some(found) => retry_delay(attempt as nat) == Some(found as int),
            None => retry_delay(attempt as nat) is None,
        },
{
    if attempt < CHUNK_ATTEMPTS - 1 {
        Some(350 * (attempt + 1))
    } else {
        None
    }
}

/// What comes after a try to fetch a chunk.
pub enum ChunkStep {
    /// The chunk is there.
    Done,
    /// The chunk is tried again after this many milliseconds.
    Wait(u64),
    /// The chunk is given up.
    Fail(DownloadError),
}

/// The mathematical form of a `ChunkStep`.
pub enum ChunkStepView {
    Done,
    Wait(int),
    Fail(ErrorView),
}

impl View for ChunkStep {
    type V = ChunkStepView;

    open spec fn view(&self) -> ChunkStepView {
        match self {
            ChunkStep::Done => ChunkStepView::Done,
            ChunkStep::Wait(delay) => ChunkStepView::Wait(*delay as int),
            ChunkStep::Fail(error) => ChunkStepView::Fail(error@),
        }
    }
}

/// What comes after a try that followed `attempt` others: the first success ends the tries, and a
/// failure after which there is no other try is the failure of the chunk.
pub open spec fn chunk_step(attempt: nat, outcome: Result<(), ErrorView>) -> ChunkStepView {
    match outcome {
        Ok(_) => ChunkStepView::Done,
        Err(error) => match retry_delay(attempt) {
            Some(delay) => ChunkStepView::Wait(delay),
            None => ChunkStepView::Fail(error),
        },
    }
}

/// What comes after a try that followed `attempt` others.
pub fn after_chunk(attempt: u64, outcome: Result<(), DownloadError>) -> (step: ChunkStep)
    ensures
        step@ == chunk_step(
            attempt as nat,
            match outcome {
                Ok(_) => Ok::<(), ErrorView>(()),
                Err(error) => Err::<(), ErrorView>(error@),
            },
        ),
{
    match outcome {
        Ok(_) => ChunkStep::Done,
        Err(error) => match chunk_retry_delay(attempt) {
            Some(delay) => ChunkStep::Wait(delay),
            None => ChunkStep::Fail(error),
        },
    }
}

/// How the fetching of a chunk ends of which `attempt` tries have failed, given how each try goes.
pub open spec fn chunk_outcome(tries: Seq<Result<(), ErrorView>>, attempt: nat) -> Result<
    (),
    ErrorView,
>
    recommends
        tries.len() >= CHUNK_ATTEMPTS,
    decreases CHUNK_ATTEMPTS - attempt,
{
    match chunk_step(attempt, tries[attempt as int]) {
        ChunkStepView::Done => Ok(()),
        ChunkStepView::Fail(error) => Err(error),
        ChunkStepView::Wait(_) => chunk_outcome(tries, attempt + 1),
    }
}

/// A chunk is there if one of its four tries succeeds; otherwise its failure is that of the last.
pub proof fn one_success_is_enough(tries: Seq<Result<(), ErrorView>>)
    requires
        tries.len() == CHUNK_ATTEMPTS,
    ensures
        chunk_outcome(tries, 0) is Ok <==> exists|i: int|
            0 <= i < tries.len() && (#[trigger] tries[i]) is Ok,
        chunk_outcome(tries, 0) is Err ==> chunk_outcome(tries, 0) == tries.last(),
{
    reveal_with_fuel(chunk_outcome, 5);
}

/// The time that is waited in all before try `attempt`.
pub open spec fn waited_before(attempt: nat) -> int
    decreases attempt,
{
    if attempt == 0 {
        0
    } else {
        waited_before((attempt - 1) as nat) + match retry_delay((attempt - 1) as nat) {
            Some(delay) => delay,
            None => 0,
        }
    }
}

/// A chunk is given up after four tries and 2.1 seconds of waiting in all, and each wait is longer
/// than the one before.
pub proof fn retries_are_bounded(attempt: nat)
    ensures
        attempt >= CHUNK_ATTEMPTS - 1 <==> retry_delay(attempt as nat) is None,
        waited_before(3) == 2_100,
        retry_delay(attempt as nat) is Some && retry_delay(attempt + 1) is Some ==> retry_delay(
            attempt,
        )->0 < retry_delay(attempt + 1)->0,
{
    reveal_with_fuel(waited_before, 4);
}

/// The header that asks for a chunk.
pub fn range_header(chunk: &Chunk) -> (text: String)
    ensures
        text@ == "bytes="@ + decimal(chunk.start as nat) + "-"@ + decimal(chunk.end as nat),
{
    let mut text = "bytes=".to_string();
    push_decimal(&mut text, chunk.start as u128);
    text.append("-");
    push_decimal(&mut text, chunk.end as u128);
    text
}

/// Whether an answer with this status may hold a chunk: partial content, or any success where the
/// chunk is the whole file.
pub open spec fn status_fits(status: u16, chunk: Chunk, total_size: u64) -> bool {
    status == 206 || (200 <= status <= 299 && chunk.start == 0 && chunk.end + 1 == total_size)
}

/// Accepts the status of an answer, or reports it.
pub fn check_status(status: u16, chunk: &Chunk, total_size: u64) -> (verdict: Result<
    (),
    DownloadError,
>)
    requires
        chunk.end < u64::MAX,
    ensures
        match verdict {
            Ok(_) => status_fits(status, *chunk, total_size),
            Err(error) => !status_fits(status, *chunk, total_size) && error@
                == ErrorView::HttpStatus(status),
        },
{
    let is_full_file = chunk.start == 0 && chunk.end + 1 == total_size;
    if (!is_full_file && status != 206) || (is_full_file && !(200 <= status && status <= 299)) {
        Err(DownloadError::HttpStatus(status))
    } else {
        Ok(())
    }
}

/// What a chunk that was received decrypts to, or why it cannot be the chunk.
pub open spec fn received(data: Seq<u8>, crypto: FileCrypto, chunk: Chunk) -> Result<
    Seq<u8>,
    ErrorView,
> {
    if data.len() != chunk.spec_len() {
        Err(
            ErrorView::ChunkLength {
                start: chunk.start,
                expected: chunk.spec_len() as u64,
                actual: data.len() as u64,
            },
        )
    } else {
        Ok(range_decrypted(data, crypto, chunk.start))
    }
}

/// What a chunk that was received decrypts to, or why it cannot be the chunk.
pub fn receive_chunk(data: Vec<u8>, crypto: &FileCrypto, chunk: &Chunk) -> (plain: Result<
    Vec<u8>,
    DownloadError,
>)
    requires
        chunk.start <= chunk.end < u64::MAX,
    ensures
        match plain {
            Ok(found) => received(data@, *crypto, *chunk) == Ok::<Seq<u8>, ErrorView>(found@),
            Err(error) => received(data@, *crypto, *chunk) == Err::<Seq<u8>, ErrorView>(error@),
        },
{
    let actual: u64 = data.len() as u64;
    if actual != chunk.len() {
        return Err(
            DownloadError::ChunkLength { start: chunk.start, expected: chunk.len(), actual },
        );
    }
    let mut plain = data;
    decrypt_range(&mut plain, crypto, chunk.start);
    Ok(plain)
}

/// A chunk of an encrypted file decrypts to that stretch of the decrypted file, if chunks are made
/// of whole blocks: a file that is fetched in chunks is the file.
pub proof fn chunks_decrypt_to_the_file(
    file: Seq<u8>,
    crypto: FileCrypto,
    chunk_size: int,
    k: int,
)
    requires
        file.len() <= u64::MAX,
        0 < chunk_size,
        chunk_size % 16 == 0,
        0 <= k < crate::chunks::chunk_count(file.len() as int, chunk_size),
    ensures
        ({
            let chunk = crate::chunks::chunk_at(k, file.len() as int, chunk_size);
            let stretch = file.subrange(chunk.start as int, chunk.end + 1);
            let plain = range_decrypted(file, crypto, 0);
            received(stretch, crypto, chunk) == Ok::<Seq<u8>, ErrorView>(
                plain.subrange(chunk.start as int, chunk.end + 1),
            )
        }),
{
    let size = file.len() as int;
    let all = crate::chunks::all_chunks(size, chunk_size);
    let none: Set<u64> = Set::empty();
    let chunk = crate::chunks::chunk_at(k, size, chunk_size);
    let wanted = |chunk: Chunk| !none.contains(chunk.start);
    let queue = crate::chunks::missing_chunks(size, chunk_size, none);
    assert(all[k] == chunk);
    all.lemma_filter_contains(wanted, k);
    let i = choose|i: int| 0 <= i < queue.len() && queue[i] == chunk;
    crate::chunks::queued_chunks_are_aligned(size, chunk_size, none, i);
    crate::crypto::decrypting_by_pieces(file, crypto, 0, chunk.start as int, chunk.end + 1);
}

/// How many bytes of a chunk are written after `bytes` more were, or why none were.
pub fn after_write(written: usize, total: usize, bytes: usize) -> (now: Result<
    usize,
    DownloadError,
>)
    requires
        written < total,
        bytes <= total - written,
    ensures
        match now {
            Ok(found) => bytes > 0 && found == written + bytes,
            Err(error) => bytes == 0 && error@ == ErrorView::Io("failed to write decrypted chunk"@),
        },
{
    if bytes == 0 {
        Err(DownloadError::Io("failed to write decrypted chunk".to_string()))
    } else {
        Ok(written + bytes)
    }
}

/// What stands at the path of a file.
pub enum FileState {
    /// A file of this size.
    File(u64),
    Other,
    Missing,
    /// It cannot be told; the text is the cause.
    Unreadable(String),
}

/// Whether a file of this size is there.
pub fn is_existing_complete(found: FileState, size: u64) -> (complete: Result<bool, DownloadError>)
    ensures
        match found {
            FileState::File(len) => complete == Ok::<bool, DownloadError>(len == size),
            FileState::Other => complete == Ok::<bool, DownloadError>(false),
            FileState::Missing => complete == Ok::<bool, DownloadError>(false),
            FileState::Unreadable(cause) => complete matches Err(error) && error@ == ErrorView::Io(
                cause@,
            ),
        },
{
    match found {
        FileState::File(len) => Ok(len == size),
        FileState::Other => Ok(false),
        FileState::Missing => Ok(false),
        FileState::Unreadable(cause) => Err(DownloadError::Io(cause)),
    }
}

/// How a worker has ended.
pub enum WorkerEnd {
    Done,
    Failed(DownloadError),
    /// It has broken down; the text is the cause.
    Broken(String),
}

/// The mathematical form of a `WorkerEnd`: the error that it ends with, if any.
pub open spec fn worker_error(end: WorkerEnd) -> Option<ErrorView> {
    match end {
        WorkerEnd::Done => None,
        WorkerEnd::Failed(error) => Some(error@),
        WorkerEnd::Broken(cause) => Some(ErrorView::Message("worker failed: "@ + cause@)),
    }
}

/// The first error among the ends of workers.
pub open spec fn first_error(ends: Seq<WorkerEnd>) -> Option<ErrorView>
    decreases ends.len(),
{
    if ends.len() == 0 {
        None
    } else {
        match first_error(ends.drop_last()) {
            Some(error) => Some(error),
            None => worker_error(ends.last()),
        }
    }
}

/// The mathematical form of an error that may be there.
pub open spec fn optional_error(error: Option<DownloadError>) -> Option<ErrorView> {
    match error {
        Some(found) => Some(found@),
        None => None,
    }
}

/// Takes in how the next worker has ended. Returns the first error so far, and whether the other
/// workers are to stop.
pub fn fold_worker(first: Option<DownloadError>, end: WorkerEnd) -> (folded: (
    Option<DownloadError>,
    bool,
))
    ensures
        optional_error(folded.0) == (match optional_error(first) {
            Some(error) => Some(error),
            None => worker_error(end),
        }),
        folded.1 == (worker_error(end) matches Some(error) && error != ErrorView::Cancelled),
{
    match end {
        WorkerEnd::Done => (first, false),
        WorkerEnd::Failed(DownloadError::Cancelled) => match first {
            Some(error) => (Some(error), false),
            None => (Some(DownloadError::Cancelled), false),
        },
        WorkerEnd::Failed(error) => match first {
            Some(earlier) => (Some(earlier), true),
            None => (Some(error), true),
        },
        WorkerEnd::Broken(cause) => match first {
            Some(earlier) => (Some(earlier), true),
            None => {
                let mut text = "worker failed: ".to_string();
                text.append(&cause);
                (Some(DownloadError::Message(text)), true)
            },
        },
    }
}

/// Taking in the ends of workers one by one gives the first error among them.
pub proof fn folding_finds_first_error(ends: Seq<WorkerEnd>, end: WorkerEnd)
    ensures
        first_error(ends.push(end)) == (match first_error(ends) {
            Some(error) => Some(error),
            None => worker_error(end),
        }),
{
    assert(ends.push(end).drop_last() == ends);
}

/// A task that was cancelled ends at once, one that is paused waits, and any other goes on. Where
/// it has waited, it takes up its status again.
pub proof fn wishes_are_followed(state: StateView, id: Seq<char>, woken: bool)
    ensures
        ({
            let step = gate_step(wanted_of(state, id), woken);
            let known = state.controls.contains_key(id);
            &&& known && state.controls[id].cancelled ==> step == GateStep::Cancelled
            &&& known && state.controls[id].paused && !state.controls[id].cancelled ==> step
                == GateStep::Wait
            &&& !known || (!state.controls[id].paused && !state.controls[id].cancelled) ==> step
                == (if woken {
                GateStep::Restore
            } else {
                GateStep::Pass
            })
        }),
{
}

/// Only a task that starts or ends to wait changes at such a point, and no other does.
pub proof fn gates_change_one_task(
    state: StateView,
    id: Seq<char>,
    woken: bool,
    resume_status: TaskStatus,
    now: u128,
    other: Seq<char>,
)
    ensures
        ({
            let after = gate_reached(state, id, woken, resume_status, now);
            let step = gate_step(wanted_of(state, id), woken);
            &&& other != id ==> untouched(state, after, other)
            &&& step == GateStep::Pass || step == GateStep::Cancelled ==> after == state
            &&& state.tasks.contains_key(id) && step == GateStep::Wait ==> after.tasks[id].status
                == TaskStatus::Paused
            &&& state.tasks.contains_key(id) && step == GateStep::Restore ==> after.tasks[id].status
                == resume_status
        }),
{
}

/// A part of a file is accepted only from an answer that says it is one. The whole file is also
/// accepted from any other answer of success.
pub proof fn answers_fit_what_was_asked(status: u16, chunk: Chunk, total_size: u64)
    ensures
        status == 206 ==> status_fits(status, chunk, total_size),
        status < 200 || status > 299 ==> !status_fits(status, chunk, total_size),
        status != 206 && (chunk.start > 0 || chunk.end + 1 < total_size) ==> !status_fits(
            status,
            chunk,
            total_size,
        ),
        200 <= status <= 299 && chunk.start == 0 && chunk.end + 1 == total_size ==> status_fits(
            status,
            chunk,
            total_size,
        ),
{
}

/// A chunk is taken exactly if as many bytes came as it has, and otherwise the numbers are told.
pub proof fn short_chunks_are_refused(data: Seq<u8>, crypto: FileCrypto, chunk: Chunk)
    requires
        chunk.start <= chunk.end < u64::MAX,
        data.len() <= u64::MAX,
    ensures
        received(data, crypto, chunk) is Ok <==> data.len() == chunk.end - chunk.start + 1,
        data.len() != chunk.end - chunk.start + 1 ==> (received(data, crypto, chunk) matches Err(
            ErrorView::ChunkLength { start, expected, actual },
        ) && start == chunk.start && expected == chunk.end - chunk.start + 1 && actual
            == data.len()),
{
}

/// A chunk is tried four times, after waits of 350, 700 and 1050 milliseconds.
pub proof fn chunks_are_tried_four_times(attempt: nat, error: ErrorView)
    ensures
        attempt < 3 ==> chunk_step(attempt, Err(error)) == ChunkStepView::Wait(
            350 * (attempt as int + 1),
        ),
        attempt >= 3 ==> chunk_step(attempt, Err(error)) == ChunkStepView::Fail(error),
        chunk_step(attempt, Ok(())) == ChunkStepView::Done,
{
}

/// The error of a download is that of the first worker that has one.
pub proof fn first_failing_worker_counts(ends: Seq<WorkerEnd>)
    ensures
        match first_error(ends) {
            None => forall|i: int| 0 <= i < ends.len() ==> #[trigger] ends[i] is Done,
            Some(error) => exists|i: int|
                0 <= i < ends.len() && match #[trigger] ends[i] {
                    WorkerEnd::Done => false,
                    WorkerEnd::Failed(found) => found@ == error,
                    WorkerEnd::Broken(cause) => error == ErrorView::Message(
                        "worker failed: "@ + cause@,
                    ),
                } && forall|j: int| 0 <= j < i ==> #[trigger] ends[j] is Done,
        },
    decreases ends.len(),
{
    if ends.len() > 0 {
        let before = ends.drop_last();
        let n = ends.len() - 1;
        first_failing_worker_counts(before);
        assert(forall|i: int| 0 <= i < n ==> before[i] == #[trigger] ends[i]);
        assert(ends[n] == ends.last());
        match first_error(before) {
            None => {
                assert forall|j: int| 0 <= j < n implies #[trigger] ends[j] is Done by {
                    assert(before[j] is Done);
                }
            },
            Some(error) => {
                let i = choose|i: int|
                    0 <= i < before.len() && match #[trigger] before[i] {
                        WorkerEnd::Done => false,
                        WorkerEnd::Failed(found) => found@ == error,
                        WorkerEnd::Broken(cause) => error == ErrorView::Message(
                            "worker failed: "@ + cause@,
                        ),
                    } && forall|j: int| 0 <= j < i ==> #[trigger] before[j] is Done;
                assert(ends[i] == before[i]);
                assert forall|j: int| 0 <= j < i implies #[trigger] ends[j] is Done by {
                    assert(before[j] is Done);
                }
            },
        }
    }
}

/// A task that was given a place runs in it, unless it was cancelled or paused: then it ends, or
/// gives the place back.
pub proof fn places_are_used(control: &TaskControl, step: SlotStep)
    requires
        call_ensures(acquire_task_slot, (control,), step),
    ensures
        step is Run <==> !control.cancelled && !control.paused,
        step is Cancelled <==> control.cancelled,
{
}

/// Bytes that were written are added up, and a write of none is a failure.
pub proof fn writes_add_up(
    written: usize,
    total: usize,
    bytes: usize,
    now: Result<usize, DownloadError>,
)
    requires
        call_ensures(after_write, (written, total, bytes), now),
    ensures
        bytes > 0 ==> (now matches Ok(found) && found == written + bytes),
        bytes == 0 ==> now is Err,
{
}

/// A file is there exactly if something is there that is a file and has the right size.
pub proof fn complete_files_have_their_size(
    found: FileState,
    size: u64,
    complete: Result<bool, DownloadError>,
)
    requires
        call_ensures(is_existing_complete, (found, size), complete),
    ensures
        complete == Ok::<bool, DownloadError>(true) <==> found == FileState::File(size),
        complete is Err <==> found is Unreadable,
{
}

/// The header that asks for a chunk names its first and its last byte.
pub proof fn headers_name_both_ends(chunk: &Chunk, text: String)
    requires
        call_ensures(range_header, (chunk,), text),
    ensures
        text@ == "bytes="@ + decimal(chunk.start as nat) + "-"@ + decimal(chunk.end as nat),
{
}

/// The first error of the workers is kept, and any failure but a cancellation stops the others.
pub proof fn failures_stop_the_others(
    first: Option<DownloadError>,
    end: WorkerEnd,
    folded: (Option<DownloadError>, bool),
)
    requires
        call_ensures(fold_worker, (first, end), folded),
    ensures
        first matches Some(error) ==> (folded.0 matches Some(kept) && kept@ == error@),
        first is None && end is Done ==> folded.0 is None,
        first is None ==> (end matches WorkerEnd::Failed(error) ==> (folded.0 matches Some(kept)
            && kept@ == error@)),
        end is Done ==> !folded.1,
        end is Broken ==> folded.1,
        end matches WorkerEnd::Failed(error) ==> (folded.1 <==> error@ != ErrorView::Cancelled),
{
}

} // verus!
