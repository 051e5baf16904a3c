//! What a run is asked to do, the stages it goes through, and the files it
//! is to write.

use crate::batch::{
    batch_count, batch_end, batch_start, effective_chunk, lemma_batch_count_rounds_up,
    lemma_batch_sizes, lemma_batches_tile, Batch,
};
use crate::generator::label_text;
use crate::persist::{file_name, joined, plan_file, texts_of, OutputFile};
use crate::range::RangeSource;
use vstd::prelude::*;

verus! {

/// The directory that the files go to where none is named.
pub const DEFAULT_OUTPUT_DIR: &'static str = "./outputs";

/// What the user is told where nothing was asked for.
pub const NOTHING_ASKED: &'static str =
    "must specify either amount_to_print or last_number or reprint_file";

/// What the user is told where what was asked for fits no run mode.
pub const UNRESOLVABLE: &'static str =
    "the options given do not select one of the three run modes";

/// What the caller asks for.
#[derive(Debug, Clone)]
pub struct Args {
    /// The first number to generate.
    pub first_number: Option<u32>,
    /// The amount to print. Goes with `chunk_size`.
    pub amount_to_print: Option<u32>,
    /// How many documents go to a file. Goes with `amount_to_print`.
    pub chunk_size: Option<usize>,
    /// The last number to generate.
    pub last_number: Option<u32>,
    /// A file that lists the numbers to print again, one to a line.
    pub reprint_file: Option<String>,
    /// The directory to output files.
    pub output_dir: Option<String>,
}

/// The three ways to say which numbers a run prints.
pub enum RunMode {
    /// `count` numbers from `first` on, `chunk` documents to a file.
    Counted { first: u32, count: u32, chunk: usize },
    /// The two numbers `first` and `last`, in one file.
    Endpoints { first: u32, last: u32 },
    /// The numbers listed in the file at `path`, in one file.
    Reprint { path: String },
}

/// Why no run mode follows from what was asked.
#[derive(Debug, Clone, Copy, PartialEq, Eq, Structural)]
pub enum ConfigurationError {
    /// Neither an amount with a chunk size, nor a last number, nor a reprint
    /// file was given, and no first number either.
    NothingAsked,
    /// What was given fits none of the three modes.
    Unresolvable,
}

impl ConfigurationError {
    /// The message for the user.
    pub fn describe(&self) -> (message: &'static str)
        ensures
            message@ == match self {
                ConfigurationError::NothingAsked => NOTHING_ASKED@,
                ConfigurationError::Unresolvable => UNRESOLVABLE@,
            },
    {
        match self {
            ConfigurationError::NothingAsked => NOTHING_ASKED,
            ConfigurationError::Unresolvable => UNRESOLVABLE,
        }
    }
}

/// Whether `args` asks for a counted run: a first number, an amount and a
/// chunk size. What else is given is not looked at.
pub open spec fn asks_counted(args: Args) -> bool {
    args.first_number is Some && args.amount_to_print is Some && args.chunk_size is Some
}

/// Whether `args` asks for the two endpoints: a first and a last number, and
/// not both an amount and a chunk size.
pub open spec fn asks_endpoints(args: Args) -> bool {
    args.first_number is Some && !(args.amount_to_print is Some && args.chunk_size is Some)
        && args.last_number is Some
}

/// Whether `args` asks for a reprint: a reprint file, and of the rest at most
/// one of amount and chunk size.
pub open spec fn asks_reprint(args: Args) -> bool {
    args.first_number is None && !(args.amount_to_print is Some && args.chunk_size is Some)
        && args.last_number is None && args.reprint_file is Some
}

/// Whether `args` asks for nothing at all.
pub open spec fn asks_nothing(args: Args) -> bool {
    args.first_number is None && !(args.amount_to_print is Some && args.chunk_size is Some)
        && args.last_number is None && args.reprint_file is None
}

/// Finds the run mode that `args` asks for.
pub fn resolve_mode(args: &Args) -> (mode: Result<RunMode, ConfigurationError>)
    ensures
        match mode {
            Ok(RunMode::Counted { first, count, chunk }) => {
                &&& asks_counted(*args)
                &&& args.first_number == Some(first)
                &&& args.amount_to_print == Some(count)
                &&& args.chunk_size == Some(chunk)
            },
            Ok(RunMode::Endpoints { first, last }) => {
                &&& asks_endpoints(*args)
                &&& args.first_number == Some(first)
                &&& args.last_number == Some(last)
            },
            Ok(RunMode::Reprint { path }) => {
                &&& asks_reprint(*args)
                &&& args.reprint_file matches Some(given)
                &&& given@ == path@
            },
            Err(ConfigurationError::NothingAsked) => asks_nothing(*args),
            Err(ConfigurationError::Unresolvable) => {
                &&& !asks_counted(*args)
                &&& !asks_endpoints(*args)
                &&& !asks_reprint(*args)
                &&& !asks_nothing(*args)
            },
        },
{
    let sized = match (args.amount_to_print, args.chunk_size) {
        (Some(count), Some(chunk)) => Some((count, chunk)),
        _ => None,
    };
    match (args.first_number, sized, args.last_number, &args.reprint_file) {
        (None, None, None, None) => Err(ConfigurationError::NothingAsked),
        (Some(first), Some((count, chunk)), _, _) => Ok(RunMode::Counted { first, count, chunk }),
        (Some(first), None, Some(last), _) => Ok(RunMode::Endpoints { first, last }),
        (None, None, None, Some(path)) => Ok(RunMode::Reprint { path: path.clone() }),
        _ => Err(ConfigurationError::Unresolvable),
    }
}

/// The directory that the files of the run go to.
pub fn output_dir(args: &Args) -> (dir: String)
    ensures
        dir@ == match args.output_dir {
            Some(given) => given@,
            None => DEFAULT_OUTPUT_DIR@,
        },
{
    match &args.output_dir {
        Some(given) => given.clone(),
        None => DEFAULT_OUTPUT_DIR.to_owned(),
    }
}

/// The stages of a run.
#[derive(Debug, Clone, Copy, PartialEq, Eq, Structural)]
pub enum RunState {
    Init,
    DirectoryPrepared,
    Generating,
    Persisting,
    Succeeded,
    Failed,
}

/// What can happen to a run from outside.
#[derive(Debug, Clone, Copy, PartialEq, Eq, Structural)]
pub enum RunEvent {
    /// The step that the stage called for is done.
    Done,
    /// The step that the stage called for has failed.
    Failure,
}

/// What the caller is to do next.
#[derive(Debug, Clone, Copy, PartialEq, Eq, Structural)]
pub enum RunAction {
    /// Remove the output directory if it is there, then create it.
    PrepareDirectory,
    /// Get hold of the serial numbers of the run.
    LoadSource,
    /// Render the batches and hand each to a writer.
    DispatchBatches,
    /// Wait until every writer has ended.
    AwaitWriters,
    /// Report that the run went well.
    ReportSuccess,
    /// Report the failure.
    ReportFailure,
}

/// How far a run has come. The stage of a run never goes down.
pub open spec fn stage(state: RunState) -> nat {
    match state {
        RunState::Init => 0,
        RunState::DirectoryPrepared => 1,
        RunState::Generating => 2,
        RunState::Persisting => 3,
        RunState::Succeeded => 4,
        RunState::Failed => 4,
    }
}

/// Whether a run in `state` is over.
pub open spec fn is_over(state: RunState) -> bool {
    state == RunState::Succeeded || state == RunState::Failed
}

/// The state after `event` has met a run in `state`.
pub open spec fn next_state(state: RunState, event: RunEvent) -> RunState {
    match (state, event) {
        (RunState::Succeeded, _) => RunState::Succeeded,
        (RunState::Failed, _) => RunState::Failed,
        (_, RunEvent::Failure) => RunState::Failed,
        (RunState::Init, RunEvent::Done) => RunState::DirectoryPrepared,
        (RunState::DirectoryPrepared, RunEvent::Done) => RunState::Generating,
        (RunState::Generating, RunEvent::Done) => RunState::Persisting,
        (RunState::Persisting, RunEvent::Done) => RunState::Succeeded,
    }
}

/// What a run in `state` asks of the caller.
pub open spec fn action_in(state: RunState) -> RunAction {
    match state {
        RunState::Init => RunAction::PrepareDirectory,
        RunState::DirectoryPrepared => RunAction::LoadSource,
        RunState::Generating => RunAction::DispatchBatches,
        RunState::Persisting => RunAction::AwaitWriters,
        RunState::Succeeded => RunAction::ReportSuccess,
        RunState::Failed => RunAction::ReportFailure,
    }
}

/// What a run in `state` asks of the caller.
pub fn action(state: RunState) -> (todo: RunAction)
    ensures
        todo == action_in(state),
{
    match state {
        RunState::Init => RunAction::PrepareDirectory,
        RunState::DirectoryPrepared => RunAction::LoadSource,
        RunState::Generating => RunAction::DispatchBatches,
        RunState::Persisting => RunAction::AwaitWriters,
        RunState::Succeeded => RunAction::ReportSuccess,
        RunState::Failed => RunAction::ReportFailure,
    }
}

/// Takes a run from `state` to its next state on `event`, and says what the
/// caller is to do there.
pub fn step(state: RunState, event: RunEvent) -> (next: (RunState, RunAction))
    ensures
        next.0 == next_state(state, event),
        next.1 == action_in(next.0),
{
    let to = match state {
        RunState::Succeeded => RunState::Succeeded,
        RunState::Failed => RunState::Failed,
        _ => match event {
            RunEvent::Failure => RunState::Failed,
            RunEvent::Done => match state {
                RunState::Init => RunState::DirectoryPrepared,
                RunState::DirectoryPrepared => RunState::Generating,
                RunState::Generating => RunState::Persisting,
                _ => RunState::Succeeded,
            },
        },
    };
    (to, action(to))
}

/// No state is entered twice: an event takes a run that is not over to a
/// later stage, and leaves a run that is over where it is.
pub proof fn lemma_run_moves_forward(state: RunState, event: RunEvent)
    ensures
        is_over(state) ==> next_state(state, event) == state,
        !is_over(state) ==> stage(next_state(state, event)) > stage(state),
        next_state(state, event) == RunState::Succeeded ==> state == RunState::Succeeded || (state
            == RunState::Persisting && event == RunEvent::Done),
{
}

/// The labels of the serial numbers that `serials` holds from `start` up to
/// `end`, in their order.
pub open spec fn labels(serials: Seq<u32>, start: int, end: int) -> Seq<Seq<char>> {
    Seq::new((end - start) as nat, |i: int| label_text(serials[start + i]))
}

/// The files of a run over `source`, `chunk` documents to a file and one
/// where `chunk` is zero: one file for each batch, in the order of the
/// batches.
pub fn plan_run(source: &RangeSource, chunk: usize) -> (files: Vec<OutputFile>)
    ensures
        files@.len() == batch_count(source@.len(), effective_chunk(chunk as nat)),
        forall|k: int|
            0 <= k < files@.len() ==> {
                let size = effective_chunk(chunk as nat);
                let start = batch_start(size, k as nat);
                let end = batch_end(source@.len(), size, k as nat);
                &&& (#[trigger] files@[k]).name@ == file_name(start, (end - 1) as nat)
                &&& files@[k].content@ == joined(labels(source@, start as int, end as int))
            },
{
    let count = source.len();
    let ghost size = effective_chunk(chunk as nat);
    let ghost n = batch_count(count as nat, size);
    let mut files: Vec<OutputFile> = Vec::new();
    let mut start: usize = 0;
    proof {
        lemma_batch_count_rounds_up(count as nat, size);
        assert(0 * size == 0) by (nonlinear_arith);
    }
    while start < count
        invariant
            count == source@.len(),
            size == effective_chunk(chunk as nat),
            n == batch_count(count as nat, size),
            files@.len() <= n,
            files@.len() < n ==> start == batch_start(size, files@.len()),
            files@.len() == n ==> start == count,
            forall|k: int|
                0 <= k < files@.len() ==> {
                    let first = batch_start(size, k as nat);
                    let end = batch_end(source@.len(), size, k as nat);
                    &&& (#[trigger] files@[k]).name@ == file_name(first, (end - 1) as nat)
                    &&& files@[k].content@ == joined(labels(source@, first as int, end as int))
                },
        decreases count - start,
    {
        let ghost k = files@.len();
        let batch = Batch::render(source, start, chunk);
        proof {
            lemma_batch_sizes(count as nat, size, k);
            lemma_batches_tile(count as nat, size, k);
            let end = batch_end(count as nat, size, k);
            assert(texts_of(batch@) =~= labels(source@, start as int, end as int));
        }
        let len = batch.len();
        if let Some(file) = plan_file(&batch) {
            files.push(file);
        }
        start = start + len;
    }
    proof {
        if files@.len() < n {
            lemma_batch_sizes(count as nat, size, files@.len());
        }
    }
    files
}

} // verus!
