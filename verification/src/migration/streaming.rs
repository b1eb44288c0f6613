//! The decisions of a streaming migration: batches come from a producer,
//! each is handed to a task, at most a set number run at once, and the
//! records the tasks processed and failed are tallied and reported.

use vstd::prelude::*;

verus! {

/// Where a streaming migration stands.
#[derive(Debug, Clone, Copy, PartialEq, Eq, Structural)]
pub struct StreamTally {
    /// Records the finished tasks processed.
    pub processed_records: u64,
    /// Records the finished tasks failed, one for each task that failed
    /// outright.
    pub failed_records: u64,
    /// Tasks running.
    pub in_flight: usize,
    /// How many tasks may run before one is waited for.
    pub max_concurrency: usize,
    /// Whether the producer has sent its last batch.
    pub draining: bool,
}

/// What happened.
#[derive(Debug, Clone, Copy, PartialEq, Eq, Structural)]
pub enum BatchOutcome {
    /// A batch came from the producer and a task now processes it.
    Started,
    /// A task finished its batch, processing and failing so many records.
    Completed { processed: u64, failed: u64 },
    /// A task failed or panicked.
    TaskFailed,
    /// The producer has sent its last batch.
    SourceExhausted,
}

/// What to do next.
#[derive(Debug, Clone, Copy, PartialEq, Eq, Structural)]
pub enum StreamAction {
    /// Receive the next batch.
    Receive,
    /// Wait for one running task to finish.
    AwaitTask,
    /// Report the progress so far, then receive the next batch.
    ReportAndReceive { processed: u64, failed: u64 },
    /// Report the final progress: the migration is done.
    Finish { processed: u64, failed: u64 },
}

/// A streaming migration before any batch: nothing tallied, nothing
/// running.
pub open spec fn stream_start(max_concurrency: usize) -> StreamTally {
    StreamTally { processed_records: 0, failed_records: 0, in_flight: 0, max_concurrency, draining: false }
}

/// Whether `event` can come in state `s`: a task only finishes while one
/// runs, no batch starts once the producer is done, and the tallies stay
/// within their integers.
pub open spec fn event_possible(s: StreamTally, event: BatchOutcome) -> bool {
    match event {
        BatchOutcome::Started => !s.draining && s.in_flight < usize::MAX,
        BatchOutcome::Completed { processed, failed } => s.in_flight > 0
            && s.processed_records + processed <= u64::MAX && s.failed_records + failed <= u64::MAX,
        BatchOutcome::TaskFailed => s.in_flight > 0 && s.failed_records + 1 <= u64::MAX,
        BatchOutcome::SourceExhausted => !s.draining,
    }
}

/// The next action once a task has finished, leaving `s`: while batches
/// still come, report and receive; once the producer is done, wait for the
/// next task, or finish when none runs.
pub open spec fn after_task(s: StreamTally) -> StreamAction {
    if !s.draining {
        StreamAction::ReportAndReceive { processed: s.processed_records, failed: s.failed_records }
    } else if s.in_flight == 0 {
        StreamAction::Finish { processed: s.processed_records, failed: s.failed_records }
    } else {
        StreamAction::AwaitTask
    }
}

/// The next state and action: a started batch is one more task running,
/// and once as many run as allowed one is waited for; a finished task
/// adds its records to the tallies (a failed task counts one failed
/// record); when the producer is done, the running tasks are waited for
/// one by one and the migration finishes with the tallies.
pub open spec fn stream_next(s: StreamTally, event: BatchOutcome) -> (StreamTally, StreamAction) {
    match event {
        BatchOutcome::Started => {
            let t = StreamTally { in_flight: (s.in_flight + 1) as usize, ..s };
            (t, if t.in_flight >= s.max_concurrency { StreamAction::AwaitTask } else { StreamAction::Receive })
        },
        BatchOutcome::Completed { processed, failed } => {
            let t = StreamTally {
                processed_records: (s.processed_records + processed) as u64,
                failed_records: (s.failed_records + failed) as u64,
                in_flight: (s.in_flight - 1) as usize,
                ..s
            };
            (t, after_task(t))
        },
        BatchOutcome::TaskFailed => {
            let t = StreamTally {
                failed_records: (s.failed_records + 1) as u64,
                in_flight: (s.in_flight - 1) as usize,
                ..s
            };
            (t, after_task(t))
        },
        BatchOutcome::SourceExhausted => {
            let t = StreamTally { draining: true, ..s };
            (t, if t.in_flight == 0 {
                StreamAction::Finish { processed: t.processed_records, failed: t.failed_records }
            } else {
                StreamAction::AwaitTask
            })
        },
    }
}

/// The state of a streaming migration before any batch.
pub fn stream_tally(max_concurrency: usize) -> (r: StreamTally)
    ensures
        r == stream_start(max_concurrency),
{
    StreamTally { processed_records: 0, failed_records: 0, in_flight: 0, max_concurrency, draining: false }
}

/// The next action once a task has finished.
fn next_after_task(t: StreamTally) -> (r: StreamAction)
    ensures
        r == after_task(t),
{
    if !t.draining {
        StreamAction::ReportAndReceive { processed: t.processed_records, failed: t.failed_records }
    } else if t.in_flight == 0 {
        StreamAction::Finish { processed: t.processed_records, failed: t.failed_records }
    } else {
        StreamAction::AwaitTask
    }
}

/// Takes one event of a streaming migration (see `stream_next`).
pub fn streaming_step(state: StreamTally, event: BatchOutcome) -> (r: (StreamTally, StreamAction))
    requires
        event_possible(state, event),
    ensures
        r == stream_next(state, event),
{
    match event {
        BatchOutcome::Started => {
            let t = StreamTally { in_flight: state.in_flight + 1, ..state };
            let a = if t.in_flight >= state.max_concurrency { StreamAction::AwaitTask } else { StreamAction::Receive };
            (t, a)
        },
        BatchOutcome::Completed { processed, failed } => {
            let t = StreamTally {
                processed_records: state.processed_records + processed,
                failed_records: state.failed_records + failed,
                in_flight: state.in_flight - 1,
                ..state
            };
            (t, next_after_task(t))
        },
        BatchOutcome::TaskFailed => {
            let t = StreamTally { failed_records: state.failed_records + 1, in_flight: state.in_flight - 1, ..state };
            (t, next_after_task(t))
        },
        BatchOutcome::SourceExhausted => {
            let t = StreamTally { draining: true, ..state };
            let a = if t.in_flight == 0 {
                StreamAction::Finish { processed: t.processed_records, failed: t.failed_records }
            } else {
                StreamAction::AwaitTask
            };
            (t, a)
        },
    }
}

/// Every step keeps the limit, never lowers a tally, and once the
/// producer is done no batch starts again; finishing reports the tallies
/// with no task running.
pub proof fn lemma_stream_step_monotone(s: StreamTally, event: BatchOutcome)
    requires
        event_possible(s, event),
    ensures
        ({
            let (t, a) = stream_next(s, event);
            &&& t.max_concurrency == s.max_concurrency
            &&& t.processed_records >= s.processed_records
            &&& t.failed_records >= s.failed_records
            &&& s.draining ==> t.draining
            &&& (a matches StreamAction::Finish { processed, failed } ==>
                    t.draining && t.in_flight == 0 && processed == t.processed_records && failed == t.failed_records)
        }),
{
}

} // verus!
