//! When a transcription engine is unloaded after a batch job.
//!
//! A live recording uses the same engines as a batch job, so after the job the
//! engine it used is unloaded only where no recording is in progress. Asking,
//! looking up and unloading take place outside: an action says what is to be
//! done next, and an event says how it came out.

use vstd::prelude::*;

verus! {

/// The transcription engines.
#[derive(Clone, Copy, Debug, PartialEq, Eq, Structural)]
pub enum Engine {
    /// The Parakeet engine.
    Parakeet,
    /// The Whisper engine.
    Whisper,
}

/// How the matter was settled.
#[derive(Clone, Copy, Debug, PartialEq, Eq, Structural)]
pub enum UnloadOutcome {
    /// A recording is in progress: the engine stays loaded.
    RecordingInProgress,
    /// There is no such engine at the moment.
    NothingLoaded,
    /// The model of the engine was unloaded.
    Unloaded(Engine),
}

/// What is to be done next.
#[derive(Clone, Copy, Debug, PartialEq, Eq, Structural)]
pub enum UnloadAction {
    /// Wait for the lock on the engines' life cycle, and keep it to the end.
    AcquireLock,
    /// Ask whether a recording is in progress.
    AskRecording,
    /// Look up the engine.
    LookUpEngine(Engine),
    /// Unload the engine's model.
    UnloadModel(Engine),
    /// Nothing more.
    Finish(UnloadOutcome),
}

/// How an action came out.
#[derive(Clone, Copy, Debug, PartialEq, Eq, Structural)]
pub enum UnloadEvent {
    /// The lock is held.
    LockAcquired,
    /// Whether a recording is in progress.
    Recording(bool),
    /// Whether the engine is there.
    EnginePresent(bool),
    /// The model was unloaded.
    ModelUnloaded,
}

/// The engine that the batch job used.
pub open spec fn batch_engine(use_parakeet: bool) -> Engine {
    if use_parakeet {
        Engine::Parakeet
    } else {
        Engine::Whisper
    }
}

/// What follows `action` when it comes out as `event`; nothing where the event is
/// no answer to the action.
pub open spec fn unload_after(
    use_parakeet: bool,
    action: UnloadAction,
    event: UnloadEvent,
) -> Option<UnloadAction> {
    match (action, event) {
        (UnloadAction::AcquireLock, UnloadEvent::LockAcquired) => Some(UnloadAction::AskRecording),
        (UnloadAction::AskRecording, UnloadEvent::Recording(recording)) => if recording {
            Some(UnloadAction::Finish(UnloadOutcome::RecordingInProgress))
        } else {
            Some(UnloadAction::LookUpEngine(batch_engine(use_parakeet)))
        },
        (UnloadAction::LookUpEngine(engine), UnloadEvent::EnginePresent(present)) => if present {
            Some(UnloadAction::UnloadModel(engine))
        } else {
            Some(UnloadAction::Finish(UnloadOutcome::NothingLoaded))
        },
        (UnloadAction::UnloadModel(engine), UnloadEvent::ModelUnloaded) => Some(
            UnloadAction::Finish(UnloadOutcome::Unloaded(engine)),
        ),
        _ => None,
    }
}

/// The first thing to do after a batch job.
pub fn first_unload_action() -> (action: UnloadAction)
    ensures
        action == UnloadAction::AcquireLock,
{
    UnloadAction::AcquireLock
}

/// What to do next, after `action` came out as `event`. An event that is no
/// answer to the action leads nowhere.
pub fn next_unload_action(use_parakeet: bool, action: UnloadAction, event: UnloadEvent) -> (next:
    Option<UnloadAction>)
    ensures
        next == unload_after(use_parakeet, action, event),
{
    match action {
        UnloadAction::AcquireLock => match event {
            UnloadEvent::LockAcquired => Some(UnloadAction::AskRecording),
            _ => None,
        },
        UnloadAction::AskRecording => match event {
            UnloadEvent::Recording(recording) => {
                if recording {
                    Some(UnloadAction::Finish(UnloadOutcome::RecordingInProgress))
                } else if use_parakeet {
                    Some(UnloadAction::LookUpEngine(Engine::Parakeet))
                } else {
                    Some(UnloadAction::LookUpEngine(Engine::Whisper))
                }
            },
            _ => None,
        },
        UnloadAction::LookUpEngine(engine) => match event {
            UnloadEvent::EnginePresent(present) => {
                if present {
                    Some(UnloadAction::UnloadModel(engine))
                } else {
                    Some(UnloadAction::Finish(UnloadOutcome::NothingLoaded))
                }
            },
            _ => None,
        },
        UnloadAction::UnloadModel(engine) => match event {
            UnloadEvent::ModelUnloaded => Some(
                UnloadAction::Finish(UnloadOutcome::Unloaded(engine)),
            ),
            _ => None,
        },
        UnloadAction::Finish(_) => None,
    }
}

/// What is to be done after the events `events`, from the first action on.
pub open spec fn unload_run(use_parakeet: bool, events: Seq<UnloadEvent>) -> Option<UnloadAction>
    decreases events.len(),
{
    if events.len() == 0 {
        Some(UnloadAction::AcquireLock)
    } else {
        match unload_run(use_parakeet, events.drop_last()) {
            Some(action) => unload_after(use_parakeet, action, events.last()),
            None => None,
        }
    }
}

/// A model is unloaded only with the lock held, only after the answer that no
/// recording is in progress, only where the engine is there, and only that of
/// the engine that the batch job used.
pub proof fn law_unloads_only_when_idle(
    use_parakeet: bool,
    events: Seq<UnloadEvent>,
    engine: Engine,
)
    requires
        unload_run(use_parakeet, events) == Some(UnloadAction::UnloadModel(engine)),
    ensures
        engine == batch_engine(use_parakeet),
        events == seq![
            UnloadEvent::LockAcquired,
            UnloadEvent::Recording(false),
            UnloadEvent::EnginePresent(true),
        ],
{
    lemma_run_so_far(use_parakeet, events);
}

/// Once a recording is found to be in progress, nothing more is done.
pub proof fn law_recording_keeps_engine(use_parakeet: bool)
    ensures
        unload_run(
            use_parakeet,
            seq![UnloadEvent::LockAcquired, UnloadEvent::Recording(true)],
        ) == Some(UnloadAction::Finish(UnloadOutcome::RecordingInProgress)),
        forall|event: UnloadEvent|
            #[trigger] unload_after(
                use_parakeet,
                UnloadAction::Finish(UnloadOutcome::RecordingInProgress),
                event,
            ) is None,
{
    let events = seq![UnloadEvent::LockAcquired, UnloadEvent::Recording(true)];
    assert(events.drop_last() == seq![UnloadEvent::LockAcquired]);
    assert(events.drop_last().drop_last() == Seq::<UnloadEvent>::empty());
    reveal_with_fuel(unload_run, 3);
}

/// A run that has not gone wrong has one of these histories.
proof fn lemma_run_so_far(use_parakeet: bool, events: Seq<UnloadEvent>)
    ensures
        match unload_run(use_parakeet, events) {
            Some(UnloadAction::AcquireLock) => events == Seq::<UnloadEvent>::empty(),
            Some(UnloadAction::AskRecording) => events == seq![UnloadEvent::LockAcquired],
            Some(UnloadAction::LookUpEngine(engine)) => {
                &&& engine == batch_engine(use_parakeet)
                &&& events == seq![UnloadEvent::LockAcquired, UnloadEvent::Recording(false)]
            },
            Some(UnloadAction::UnloadModel(engine)) => {
                &&& engine == batch_engine(use_parakeet)
                &&& events == seq![
                    UnloadEvent::LockAcquired,
                    UnloadEvent::Recording(false),
                    UnloadEvent::EnginePresent(true),
                ]
            },
            _ => true,
        },
    decreases events.len(),
{
    if events.len() > 0 {
        lemma_run_so_far(use_parakeet, events.drop_last());
        assert(events == events.drop_last().push(events.last()));
    } else {
        assert(events == Seq::<UnloadEvent>::empty());
    }
}

} // verus!
