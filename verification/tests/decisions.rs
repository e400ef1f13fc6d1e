use speech_batch::save::{
    first_save_action, next_save_action, temporary_file_name, transcript_file_name, SaveAction,
};
use speech_batch::unload::{
    first_unload_action, next_unload_action, Engine, UnloadAction, UnloadEvent, UnloadOutcome,
};

fn run(use_parakeet: bool, events: &[UnloadEvent]) -> Option<UnloadAction> {
    let mut action = first_unload_action();
    for event in events {
        action = next_unload_action(use_parakeet, action, *event)?;
    }
    Some(action)
}

#[test]
fn engine_is_unloaded_when_no_recording_runs() {
    for (use_parakeet, engine) in [(true, Engine::Parakeet), (false, Engine::Whisper)] {
        let events = [
            UnloadEvent::LockAcquired,
            UnloadEvent::Recording(false),
            UnloadEvent::EnginePresent(true),
            UnloadEvent::ModelUnloaded,
        ];
        assert_eq!(run(use_parakeet, &events[..0]), Some(UnloadAction::AcquireLock));
        assert_eq!(run(use_parakeet, &events[..1]), Some(UnloadAction::AskRecording));
        assert_eq!(run(use_parakeet, &events[..2]), Some(UnloadAction::LookUpEngine(engine)));
        assert_eq!(run(use_parakeet, &events[..3]), Some(UnloadAction::UnloadModel(engine)));
        assert_eq!(
            run(use_parakeet, &events),
            Some(UnloadAction::Finish(UnloadOutcome::Unloaded(engine)))
        );
    }
}

#[test]
fn recording_keeps_the_engine() {
    assert_eq!(
        run(true, &[UnloadEvent::LockAcquired, UnloadEvent::Recording(true)]),
        Some(UnloadAction::Finish(UnloadOutcome::RecordingInProgress))
    );
}

#[test]
fn absent_engine_needs_no_unloading() {
    assert_eq!(
        run(
            false,
            &[
                UnloadEvent::LockAcquired,
                UnloadEvent::Recording(false),
                UnloadEvent::EnginePresent(false)
            ]
        ),
        Some(UnloadAction::Finish(UnloadOutcome::NothingLoaded))
    );
}

#[test]
fn event_that_answers_another_action_leads_nowhere() {
    assert_eq!(run(true, &[UnloadEvent::Recording(false)]), None);
    assert_eq!(run(true, &[UnloadEvent::LockAcquired, UnloadEvent::EnginePresent(true)]), None);
    assert_eq!(
        next_unload_action(
            true,
            UnloadAction::Finish(UnloadOutcome::NothingLoaded),
            UnloadEvent::LockAcquired
        ),
        None
    );
}

#[test]
fn transcript_is_replaced_last() {
    let mut action = first_save_action();
    let mut seen = vec![action];
    for _ in 0..4 {
        action = next_save_action(action, true);
        seen.push(action);
    }
    assert_eq!(
        seen,
        vec![
            SaveAction::Encode,
            SaveAction::WriteTemporary,
            SaveAction::ReplaceTranscript,
            SaveAction::Finish,
            SaveAction::Finish
        ]
    );
    assert_eq!(transcript_file_name(), "transcripts.json");
    assert_eq!(temporary_file_name(), ".transcripts.json.tmp");
}

#[test]
fn any_failure_ends_saving() {
    for action in [SaveAction::Encode, SaveAction::WriteTemporary, SaveAction::ReplaceTranscript] {
        assert_eq!(next_save_action(action, false), SaveAction::Fail);
    }
    assert_eq!(next_save_action(SaveAction::Fail, true), SaveAction::Fail);
}
