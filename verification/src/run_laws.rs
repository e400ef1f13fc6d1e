//! How saving and unloading go from the first action to the last.

use crate::save::{
    first_save_action, next_save_action, temporary_file_name, transcript_file_name, Folder,
    SaveAction,
};
use crate::unload::{
    first_unload_action, next_unload_action, Engine, UnloadAction, UnloadEvent, UnloadOutcome,
};
use vstd::prelude::*;

verus! {

/// The document ends up in `transcripts.json`, and is first written to a file of that
/// name with a dot before it and `.tmp` behind it.
pub proof fn law_file_names(transcript: &'static str, temporary: &'static str)
    requires
        call_ensures(transcript_file_name, (), transcript),
        call_ensures(temporary_file_name, (), temporary),
    ensures
        transcript@ == "transcripts.json"@,
        temporary@ == "."@ + transcript@ + ".tmp"@,
{
    reveal_strlit("transcripts.json");
    reveal_strlit(".transcripts.json.tmp");
    reveal_strlit(".");
    reveal_strlit(".tmp");
    assert(temporary@ =~= "."@ + transcript@ + ".tmp"@);
}

/// `actions` are done one after the other, each as the one before came out, and
/// `outcomes` says whether each of them succeeded.
pub open spec fn is_save_job(actions: Seq<SaveAction>, outcomes: Seq<bool>) -> bool {
    &&& actions.len() == outcomes.len() + 1
    &&& call_ensures(first_save_action, (), actions[0])
    &&& forall|i: int|
        0 <= i < outcomes.len() ==> call_ensures(
            next_save_action,
            (actions[i], #[trigger] outcomes[i]),
            actions[i + 1],
        )
}

/// The document is written out as text, the text is written to the temporary file, and
/// that is put in the place of the transcript file; then saving is finished. Nothing
/// is done after an action that failed.
pub proof fn law_save_job(actions: Seq<SaveAction>, outcomes: Seq<bool>, i: int)
    requires
        is_save_job(actions, outcomes),
        0 <= i < actions.len(),
    ensures
        actions[i] == SaveAction::Fail <==> exists|j: int|
            0 <= j < i && j < 3 && !#[trigger] outcomes[j],
        actions[i] != SaveAction::Fail ==> actions[i] == if i == 0 {
            SaveAction::Encode
        } else if i == 1 {
            SaveAction::WriteTemporary
        } else if i == 2 {
            SaveAction::ReplaceTranscript
        } else {
            SaveAction::Finish
        },
    decreases i,
{
    if i > 0 {
        law_save_job(actions, outcomes, i - 1);
        let succeeded = outcomes[i - 1];
        assert(call_ensures(next_save_action, (actions[i - 1], succeeded), actions[i - 1 + 1]));
    }
}

/// `folders` are states that a folder may pass through as the actions are done. A
/// failed write may leave anything in the temporary file; a rename moves the content
/// as a whole or does nothing; writing the document out touches no file.
pub open spec fn are_folders_of_job(
    actions: Seq<SaveAction>,
    outcomes: Seq<bool>,
    text: Seq<char>,
    folders: Seq<Folder>,
) -> bool {
    &&& folders.len() == actions.len()
    &&& forall|i: int|
        0 <= i < outcomes.len() ==> if actions[i] == SaveAction::WriteTemporary {
            &&& folders[i + 1].transcript == folders[i].transcript
            &&& (#[trigger] outcomes[i]) ==> folders[i + 1].temporary == Some(text)
        } else if actions[i] == SaveAction::ReplaceTranscript && outcomes[i] {
            &&& folders[i + 1].transcript == folders[i].temporary
            &&& folders[i + 1].temporary is None
        } else {
            folders[i + 1] == folders[i]
        }
}

/// At every moment of a job the transcript file holds the old transcript or the whole
/// new one. It holds the new one just from the third success in a row on.
pub proof fn law_save_job_is_atomic(
    actions: Seq<SaveAction>,
    outcomes: Seq<bool>,
    text: Seq<char>,
    folders: Seq<Folder>,
    i: int,
)
    requires
        is_save_job(actions, outcomes),
        are_folders_of_job(actions, outcomes, text, folders),
        0 <= i < actions.len(),
    ensures
        ({
            let saved = i >= 3 && outcomes[0] && outcomes[1] && outcomes[2];
            &&& actions[i] == SaveAction::Finish <==> saved
            &&& folders[i].transcript == if saved {
                Some(text)
            } else {
                folders[0].transcript
            }
            &&& saved ==> folders[i].temporary is None
            &&& actions[i] == SaveAction::ReplaceTranscript ==> folders[i].temporary == Some(text)
        }),
    decreases i,
{
    law_save_job(actions, outcomes, i);
    if i > 0 {
        law_save_job_is_atomic(actions, outcomes, text, folders, i - 1);
        law_save_job(actions, outcomes, i - 1);
        let succeeded = outcomes[i - 1];
        assert(folders[i - 1 + 1] == folders[i]);
    }
    if i >= 3 {
        if !(outcomes[0] && outcomes[1] && outcomes[2]) {
            assert(actions[i] == SaveAction::Fail);
        }
    }
}

/// What each answer leads to. The lock comes first, then the question whether a
/// recording is in progress: if so nothing is unloaded. Else the engine of the job is
/// looked up and, where it is there, its model is unloaded. Any other answer leads
/// nowhere.
pub proof fn law_unload_steps(
    use_parakeet: bool,
    action: UnloadAction,
    event: UnloadEvent,
    next: Option<UnloadAction>,
)
    requires
        call_ensures(next_unload_action, (use_parakeet, action, event), next),
    ensures
        action == UnloadAction::AcquireLock && event == UnloadEvent::LockAcquired ==> next == Some(
            UnloadAction::AskRecording,
        ),
        action == UnloadAction::AskRecording && event == UnloadEvent::Recording(true) ==> next
            == Some(UnloadAction::Finish(UnloadOutcome::RecordingInProgress)),
        action == UnloadAction::AskRecording && event == UnloadEvent::Recording(false)
            && use_parakeet ==> next == Some(UnloadAction::LookUpEngine(Engine::Parakeet)),
        action == UnloadAction::AskRecording && event == UnloadEvent::Recording(false)
            && !use_parakeet ==> next == Some(UnloadAction::LookUpEngine(Engine::Whisper)),
        action matches UnloadAction::LookUpEngine(engine) ==> event == UnloadEvent::EnginePresent(
            true,
        ) ==> next == Some(UnloadAction::UnloadModel(engine)),
        action is LookUpEngine && event == UnloadEvent::EnginePresent(false) ==> next == Some(
            UnloadAction::Finish(UnloadOutcome::NothingLoaded),
        ),
        action matches UnloadAction::UnloadModel(engine) ==> event == UnloadEvent::ModelUnloaded
            ==> next == Some(UnloadAction::Finish(UnloadOutcome::Unloaded(engine))),
        !(action is AcquireLock && event is LockAcquired) && !(action is AskRecording
            && event is Recording) && !(action is LookUpEngine && event is EnginePresent) && !(
        action is UnloadModel && event is ModelUnloaded) ==> next is None,
{
}

/// `actions` are done one after the other, each as the one before came out.
pub open spec fn is_unload_job(
    use_parakeet: bool,
    actions: Seq<UnloadAction>,
    events: Seq<UnloadEvent>,
) -> bool {
    &&& actions.len() == events.len() + 1
    &&& call_ensures(first_unload_action, (), actions[0])
    &&& forall|i: int|
        0 <= i < events.len() ==> call_ensures(
            next_unload_action,
            (use_parakeet, actions[i], #[trigger] events[i]),
            Some(actions[i + 1]),
        )
}

/// A job ends after two answers where a recording is in progress, after three where
/// there is no such engine, and after four where the model was unloaded: that of the
/// engine that the job used. Each ends as it should.
pub proof fn law_unload_job(
    use_parakeet: bool,
    actions: Seq<UnloadAction>,
    events: Seq<UnloadEvent>,
)
    requires
        is_unload_job(use_parakeet, actions, events),
    ensures
        ({
            let engine = if use_parakeet {
                Engine::Parakeet
            } else {
                Engine::Whisper
            };
            &&& events.len() <= 4
            &&& actions[0] == UnloadAction::AcquireLock
            &&& events.len() >= 1 ==> events[0] == UnloadEvent::LockAcquired && actions[1]
                == UnloadAction::AskRecording
            &&& events.len() >= 2 ==> events[1] is Recording && actions[2] == if events[1]
                == UnloadEvent::Recording(true) {
                UnloadAction::Finish(UnloadOutcome::RecordingInProgress)
            } else {
                UnloadAction::LookUpEngine(engine)
            }
            &&& events.len() >= 3 ==> events[1] == UnloadEvent::Recording(false)
                && events[2] is EnginePresent && actions[3] == if events[2]
                == UnloadEvent::EnginePresent(true) {
                UnloadAction::UnloadModel(engine)
            } else {
                UnloadAction::Finish(UnloadOutcome::NothingLoaded)
            }
            &&& events.len() >= 4 ==> events[2] == UnloadEvent::EnginePresent(true) && events[3]
                == UnloadEvent::ModelUnloaded && actions[4] == UnloadAction::Finish(
                UnloadOutcome::Unloaded(engine),
            )
        }),
{
    if events.len() >= 1 {
        law_unload_steps(use_parakeet, actions[0], events[0], Some(actions[1]));
    }
    if events.len() >= 2 {
        law_unload_steps(use_parakeet, actions[1], events[1], Some(actions[2]));
    }
    if events.len() >= 3 {
        law_unload_steps(use_parakeet, actions[2], events[2], Some(actions[3]));
    }
    if events.len() >= 4 {
        law_unload_steps(use_parakeet, actions[3], events[3], Some(actions[4]));
    }
    if events.len() >= 5 {
        law_unload_steps(use_parakeet, actions[4], events[4], Some(actions[5]));
    }
}

} // verus!
