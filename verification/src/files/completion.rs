//! The decisions of completing an upload: after each piece of outside work
//! (a query, a lock, writing the object, a transaction step), what to undo
//! and what to do next.
use vstd::prelude::*;

use super::upload::FileError;

verus! {

/// The piece of work a completion has just done.
#[derive(Debug, Clone, Copy, PartialEq, Eq, Structural)]
pub enum CompletionPhase {
    /// Looked for a file already completed from this upload.
    FirstLook,
    /// Looked for a live session of the upload.
    LiveSession,
    /// Looked again for a completed file, the session being gone.
    MissingLook,
    /// Tried to claim the session for completion under a fresh token.
    Claim,
    /// Looked again for a completed file, the claim being refused.
    UnclaimedLook,
    /// Read the live session's sizes and state.
    ReadState,
    /// Looked up the store the session writes to.
    Storage,
    /// Took the lock on the upload's object work.
    Lock,
    /// Assembled the object from its parts (the object is removed again by
    /// that work when it fails).
    Assemble,
    /// Opened the transaction that records the file.
    Begin,
    /// Checked, in the transaction, that the claim is still held.
    Confirm,
    /// Looked for a completed file, the claim being lost.
    LostClaimLook,
    /// Inserted the file row and deleted the session in the transaction.
    Record,
    /// Committed the transaction.
    Commit,
}

/// How that work went.
#[derive(Debug, Clone, Copy, PartialEq, Eq, Structural)]
pub enum CompletionOutcome {
    /// It failed with an error that the caller holds.
    Failed,
    /// What was looked for is there, the claim or lock was taken, the
    /// session was deleted exactly once, or the work was done.
    Yes,
    /// What was looked for is not there, the claim was refused or lost, or
    /// the session was not deleted exactly once.
    No,
    /// Another worker holds the lock.
    Conflict,
}

/// What to undo before going on.
#[derive(Debug, Clone, Copy, PartialEq, Eq, Structural)]
pub struct CompletionUndo {
    /// Give the session claim back.
    pub release_claim: bool,
    /// Roll the transaction back.
    pub rollback: bool,
    /// Remove the object that was written.
    pub remove_object: bool,
    /// Give up the claim and the lock on the object work.
    pub abandon_claim: bool,
}

/// What to do next.
#[derive(Debug)]
pub enum CompletionNext {
    /// Do the work of this phase.
    Do(CompletionPhase),
    /// Answer with the completed file found, cleaning up its parts first
    /// when asked.
    ReturnCompleted { clean_parts: bool },
    /// Answer with the file just recorded, after cleaning up its parts.
    ReturnRecorded,
    /// Fail with the error the caller holds.
    Fail,
    /// Fail with this error.
    Refuse(FileError),
    /// Fail as `refused_completion` answers the session state just read.
    RefuseByState,
}

/// Nothing to undo.
pub open spec fn keep() -> CompletionUndo {
    CompletionUndo { release_claim: false, rollback: false, remove_object: false, abandon_claim: false }
}

/// Undo a completion whose object was written: roll back when a transaction
/// is open, remove the object, and give up the claim.
pub open spec fn drop_written(rollback: bool) -> CompletionUndo {
    CompletionUndo { release_claim: false, rollback, remove_object: true, abandon_claim: true }
}

/// A phase that only looks for a completed file: found, it is the answer;
/// otherwise `otherwise` follows.
pub open spec fn look_step(outcome: CompletionOutcome, clean_parts: bool, otherwise: CompletionNext) -> (
    CompletionUndo,
    CompletionNext,
) {
    match outcome {
        CompletionOutcome::Yes => (keep(), CompletionNext::ReturnCompleted { clean_parts }),
        CompletionOutcome::No => (keep(), otherwise),
        _ => (keep(), CompletionNext::Fail),
    }
}

/// The decision after each piece of work.
pub open spec fn completion_step_spec(phase: CompletionPhase, outcome: CompletionOutcome) -> (
    CompletionUndo,
    CompletionNext,
) {
    match phase {
        CompletionPhase::FirstLook => look_step(outcome, true, CompletionNext::Do(CompletionPhase::LiveSession)),
        CompletionPhase::LiveSession => match outcome {
            CompletionOutcome::Yes => (keep(), CompletionNext::Do(CompletionPhase::Claim)),
            CompletionOutcome::No => (keep(), CompletionNext::Do(CompletionPhase::MissingLook)),
            _ => (keep(), CompletionNext::Fail),
        },
        CompletionPhase::MissingLook => look_step(outcome, false, CompletionNext::Refuse(FileError::UploadNotFound)),
        CompletionPhase::Claim => match outcome {
            CompletionOutcome::Yes => (keep(), CompletionNext::Do(CompletionPhase::Storage)),
            CompletionOutcome::No => (keep(), CompletionNext::Do(CompletionPhase::UnclaimedLook)),
            _ => (keep(), CompletionNext::Fail),
        },
        CompletionPhase::UnclaimedLook => look_step(outcome, false, CompletionNext::Do(CompletionPhase::ReadState)),
        CompletionPhase::ReadState => match outcome {
            CompletionOutcome::Yes => (keep(), CompletionNext::RefuseByState),
            CompletionOutcome::No => (keep(), CompletionNext::Refuse(FileError::UploadNotFound)),
            _ => (keep(), CompletionNext::Fail),
        },
        CompletionPhase::Storage => match outcome {
            CompletionOutcome::Yes => (keep(), CompletionNext::Do(CompletionPhase::Lock)),
            _ => (
                CompletionUndo { release_claim: true, rollback: false, remove_object: false, abandon_claim: false },
                CompletionNext::Fail,
            ),
        },
        CompletionPhase::Lock => match outcome {
            CompletionOutcome::Yes => (keep(), CompletionNext::Do(CompletionPhase::Assemble)),
            CompletionOutcome::Conflict => (keep(), CompletionNext::Refuse(FileError::UploadInProgress)),
            _ => (keep(), CompletionNext::Fail),
        },
        CompletionPhase::Assemble => match outcome {
            CompletionOutcome::Yes => (keep(), CompletionNext::Do(CompletionPhase::Begin)),
            _ => (
                CompletionUndo { release_claim: false, rollback: false, remove_object: false, abandon_claim: true },
                CompletionNext::Fail,
            ),
        },
        CompletionPhase::Begin => match outcome {
            CompletionOutcome::Yes => (keep(), CompletionNext::Do(CompletionPhase::Confirm)),
            _ => (drop_written(false), CompletionNext::Fail),
        },
        CompletionPhase::Confirm => match outcome {
            CompletionOutcome::Yes => (keep(), CompletionNext::Do(CompletionPhase::Record)),
            CompletionOutcome::No => (drop_written(true), CompletionNext::Do(CompletionPhase::LostClaimLook)),
            _ => (drop_written(true), CompletionNext::Fail),
        },
        CompletionPhase::LostClaimLook => look_step(outcome, false, CompletionNext::Refuse(FileError::UploadInProgress)),
        CompletionPhase::Record => match outcome {
            CompletionOutcome::Yes => (keep(), CompletionNext::Do(CompletionPhase::Commit)),
            CompletionOutcome::No => (drop_written(true), CompletionNext::Refuse(FileError::UploadInProgress)),
            _ => (drop_written(true), CompletionNext::Fail),
        },
        CompletionPhase::Commit => match outcome {
            CompletionOutcome::Yes => (keep(), CompletionNext::ReturnRecorded),
            _ => (keep(), CompletionNext::Fail),
        },
    }
}

fn keep_exec() -> (r: CompletionUndo)
    ensures
        r == keep(),
{
    CompletionUndo { release_claim: false, rollback: false, remove_object: false, abandon_claim: false }
}

fn drop_written_exec(rollback: bool) -> (r: CompletionUndo)
    ensures
        r == drop_written(rollback),
{
    CompletionUndo { release_claim: false, rollback, remove_object: true, abandon_claim: true }
}

fn look_step_exec(outcome: CompletionOutcome, clean_parts: bool, otherwise: CompletionNext) -> (r: (
    CompletionUndo,
    CompletionNext,
))
    ensures
        r == look_step(outcome, clean_parts, otherwise),
{
    match outcome {
        CompletionOutcome::Yes => (keep_exec(), CompletionNext::ReturnCompleted { clean_parts }),
        CompletionOutcome::No => (keep_exec(), otherwise),
        _ => (keep_exec(), CompletionNext::Fail),
    }
}

/// What to undo and what to do next, after `phase` went as `outcome` says.
pub fn completion_step(phase: CompletionPhase, outcome: CompletionOutcome) -> (r: (CompletionUndo, CompletionNext))
    ensures
        r == completion_step_spec(phase, outcome),
{
    match phase {
        CompletionPhase::FirstLook => look_step_exec(outcome, true, CompletionNext::Do(CompletionPhase::LiveSession)),
        CompletionPhase::LiveSession => match outcome {
            CompletionOutcome::Yes => (keep_exec(), CompletionNext::Do(CompletionPhase::Claim)),
            CompletionOutcome::No => (keep_exec(), CompletionNext::Do(CompletionPhase::MissingLook)),
            _ => (keep_exec(), CompletionNext::Fail),
        },
        CompletionPhase::MissingLook => look_step_exec(
            outcome,
            false,
            CompletionNext::Refuse(FileError::UploadNotFound),
        ),
        CompletionPhase::Claim => match outcome {
            CompletionOutcome::Yes => (keep_exec(), CompletionNext::Do(CompletionPhase::Storage)),
            CompletionOutcome::No => (keep_exec(), CompletionNext::Do(CompletionPhase::UnclaimedLook)),
            _ => (keep_exec(), CompletionNext::Fail),
        },
        CompletionPhase::UnclaimedLook => look_step_exec(
            outcome,
            false,
            CompletionNext::Do(CompletionPhase::ReadState),
        ),
        CompletionPhase::ReadState => match outcome {
            CompletionOutcome::Yes => (keep_exec(), CompletionNext::RefuseByState),
            CompletionOutcome::No => (keep_exec(), CompletionNext::Refuse(FileError::UploadNotFound)),
            _ => (keep_exec(), CompletionNext::Fail),
        },
        CompletionPhase::Storage => match outcome {
            CompletionOutcome::Yes => (keep_exec(), CompletionNext::Do(CompletionPhase::Lock)),
            _ => (
                CompletionUndo { release_claim: true, rollback: false, remove_object: false, abandon_claim: false },
                CompletionNext::Fail,
            ),
        },
        CompletionPhase::Lock => match outcome {
            CompletionOutcome::Yes => (keep_exec(), CompletionNext::Do(CompletionPhase::Assemble)),
            CompletionOutcome::Conflict => (keep_exec(), CompletionNext::Refuse(FileError::UploadInProgress)),
            _ => (keep_exec(), CompletionNext::Fail),
        },
        CompletionPhase::Assemble => match outcome {
            CompletionOutcome::Yes => (keep_exec(), CompletionNext::Do(CompletionPhase::Begin)),
            _ => (
                CompletionUndo { release_claim: false, rollback: false, remove_object: false, abandon_claim: true },
                CompletionNext::Fail,
            ),
        },
        CompletionPhase::Begin => match outcome {
            CompletionOutcome::Yes => (keep_exec(), CompletionNext::Do(CompletionPhase::Confirm)),
            _ => (drop_written_exec(false), CompletionNext::Fail),
        },
        CompletionPhase::Confirm => match outcome {
            CompletionOutcome::Yes => (keep_exec(), CompletionNext::Do(CompletionPhase::Record)),
            CompletionOutcome::No => (drop_written_exec(true), CompletionNext::Do(CompletionPhase::LostClaimLook)),
            _ => (drop_written_exec(true), CompletionNext::Fail),
        },
        CompletionPhase::LostClaimLook => look_step_exec(
            outcome,
            false,
            CompletionNext::Refuse(FileError::UploadInProgress),
        ),
        CompletionPhase::Record => match outcome {
            CompletionOutcome::Yes => (keep_exec(), CompletionNext::Do(CompletionPhase::Commit)),
            CompletionOutcome::No => (drop_written_exec(true), CompletionNext::Refuse(FileError::UploadInProgress)),
            _ => (drop_written_exec(true), CompletionNext::Fail),
        },
        CompletionPhase::Commit => match outcome {
            CompletionOutcome::Yes => (keep_exec(), CompletionNext::ReturnRecorded),
            _ => (keep_exec(), CompletionNext::Fail),
        },
    }
}

/// Once the object is written and the transaction is being prepared, any
/// way the completion does not go on removes the object and gives up the
/// claim, rolling back a transaction that was opened.
pub proof fn lemma_unrecorded_objects_are_removed(phase: CompletionPhase, outcome: CompletionOutcome)
    requires
        phase == CompletionPhase::Begin || phase == CompletionPhase::Confirm || phase == CompletionPhase::Record,
        outcome != CompletionOutcome::Yes,
    ensures
        completion_step_spec(phase, outcome).0.remove_object,
        completion_step_spec(phase, outcome).0.abandon_claim,
        phase != CompletionPhase::Begin ==> completion_step_spec(phase, outcome).0.rollback,
{
}

/// A completion answers with a file it recorded only after committing it,
/// and nothing is undone on the way there.
pub proof fn lemma_recorded_only_after_commit(phase: CompletionPhase, outcome: CompletionOutcome)
    ensures
        completion_step_spec(phase, outcome).1 matches CompletionNext::ReturnRecorded ==> phase
            == CompletionPhase::Commit && outcome == CompletionOutcome::Yes && completion_step_spec(
            phase,
            outcome,
        ).0 == keep(),
{
}

/// The parts of an upload are cleaned up on answering with a completed file
/// only when that file was there from the start.
pub proof fn lemma_parts_cleaned_only_for_earlier_completions(phase: CompletionPhase, outcome: CompletionOutcome)
    ensures
        completion_step_spec(phase, outcome).1 matches CompletionNext::ReturnCompleted { clean_parts } ==> (
        clean_parts <==> phase == CompletionPhase::FirstLook),
{
}

/// A session that exists is never answered as missing: a completion reports
/// `UploadNotFound` only after looking up the session and not finding it
/// (with no completed file there either), or after the session vanished
/// before its state could be read. When the claim is refused and no
/// completed file exists, the session state is read next, and that state
/// decides the answer.
pub proof fn lemma_not_found_only_for_missing_sessions(phase: CompletionPhase, outcome: CompletionOutcome)
    ensures
        completion_step_spec(phase, outcome).1 matches CompletionNext::Refuse(FileError::UploadNotFound) ==> (
        phase == CompletionPhase::MissingLook || phase == CompletionPhase::ReadState) && outcome
            == CompletionOutcome::No,
        completion_step_spec(CompletionPhase::UnclaimedLook, CompletionOutcome::No).1 matches CompletionNext::Do(
            CompletionPhase::ReadState,
        ),
        completion_step_spec(CompletionPhase::ReadState, CompletionOutcome::Yes).1 matches CompletionNext::RefuseByState,
        completion_step_spec(phase, outcome).1 matches CompletionNext::RefuseByState ==> phase
            == CompletionPhase::ReadState && outcome == CompletionOutcome::Yes,
{
}

/// A failed piece of work ends the completion with its error; another
/// worker holding the lock is answered as a completion in progress, and
/// nothing else counts as a conflict.
pub proof fn lemma_failures_end_the_completion(phase: CompletionPhase)
    ensures
        completion_step_spec(phase, CompletionOutcome::Failed).1 matches CompletionNext::Fail,
        phase == CompletionPhase::Lock ==> completion_step_spec(phase, CompletionOutcome::Conflict).1 matches CompletionNext::Refuse(
            FileError::UploadInProgress,
        ),
        phase != CompletionPhase::Lock ==> completion_step_spec(phase, CompletionOutcome::Conflict).1 matches CompletionNext::Fail,
{
}

/// Once the session is claimed, a completion that does not go on gives the
/// claim back: before the lock is taken by releasing it, after the object
/// work began by giving up the claim with its lock.
pub proof fn lemma_claims_are_not_left_behind(phase: CompletionPhase, outcome: CompletionOutcome)
    requires
        outcome != CompletionOutcome::Yes,
    ensures
        phase == CompletionPhase::Storage ==> completion_step_spec(phase, outcome).0.release_claim,
        phase == CompletionPhase::Assemble || phase == CompletionPhase::Begin || phase == CompletionPhase::Confirm
            || phase == CompletionPhase::Record ==> completion_step_spec(phase, outcome).0.abandon_claim,
{
}

} // verus!
