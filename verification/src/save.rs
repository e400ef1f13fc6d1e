//! How a transcript document is saved: written beside the old one first, then put
//! in its place, so that a reader never finds half a document.

use vstd::prelude::*;

verus! {

/// The name of the file that holds the transcript of a meeting.
pub fn transcript_file_name() -> (name: &'static str)
    ensures
        name@ == "transcripts.json"@,
{
    "transcripts.json"
}

/// The name of the file that a new transcript is first written to.
pub fn temporary_file_name() -> (name: &'static str)
    ensures
        name@ == ".transcripts.json.tmp"@,
{
    ".transcripts.json.tmp"
}

/// What is to be done next.
#[derive(Clone, Copy, Debug, PartialEq, Eq, Structural)]
pub enum SaveAction {
    /// Write the document out as text.
    Encode,
    /// Write the text to the temporary file.
    WriteTemporary,
    /// Rename the temporary file to the transcript file.
    ReplaceTranscript,
    /// Nothing more: the document is saved.
    Finish,
    /// Nothing more: report the failure of the last action.
    Fail,
}

/// What follows `action`, depending on whether it succeeded.
pub open spec fn save_after(action: SaveAction, succeeded: bool) -> SaveAction {
    match action {
        SaveAction::Encode if succeeded => SaveAction::WriteTemporary,
        SaveAction::WriteTemporary if succeeded => SaveAction::ReplaceTranscript,
        SaveAction::ReplaceTranscript if succeeded => SaveAction::Finish,
        SaveAction::Finish => SaveAction::Finish,
        _ => SaveAction::Fail,
    }
}

/// The first thing to do to save a document.
pub fn first_save_action() -> (action: SaveAction)
    ensures
        action == SaveAction::Encode,
{
    SaveAction::Encode
}

/// What to do next, after `action` succeeded or failed.
pub fn next_save_action(action: SaveAction, succeeded: bool) -> (next: SaveAction)
    ensures
        next == save_after(action, succeeded),
{
    match action {
        SaveAction::Finish => SaveAction::Finish,
        SaveAction::Fail => SaveAction::Fail,
        SaveAction::Encode => {
            if succeeded {
                SaveAction::WriteTemporary
            } else {
                SaveAction::Fail
            }
        },
        SaveAction::WriteTemporary => {
            if succeeded {
                SaveAction::ReplaceTranscript
            } else {
                SaveAction::Fail
            }
        },
        SaveAction::ReplaceTranscript => {
            if succeeded {
                SaveAction::Finish
            } else {
                SaveAction::Fail
            }
        },
    }
}

/// The two files that saving touches, each with its content where it is there.
pub struct Folder {
    /// The transcript file.
    pub transcript: Option<Seq<char>>,
    /// The temporary file.
    pub temporary: Option<Seq<char>>,
}

/// How an action may change the folder when `text` is saved.
///
/// A write that fails may leave anything in the temporary file. A rename moves
/// the content as a whole or does nothing.
pub open spec fn may_change(
    action: SaveAction,
    succeeded: bool,
    text: Seq<char>,
    before: Folder,
    after: Folder,
) -> bool {
    match action {
        SaveAction::WriteTemporary => {
            &&& after.transcript == before.transcript
            &&& succeeded ==> after.temporary == Some(text)
        },
        SaveAction::ReplaceTranscript if succeeded => {
            &&& after.transcript == before.temporary
            &&& after.temporary is None
        },
        _ => after == before,
    }
}

/// What holds of the folder when `action` is next, in saving `text` over the
/// transcript `old`.
pub open spec fn save_state(
    action: SaveAction,
    text: Seq<char>,
    old: Option<Seq<char>>,
    folder: Folder,
) -> bool {
    match action {
        SaveAction::ReplaceTranscript => {
            &&& folder.transcript == old
            &&& folder.temporary == Some(text)
        },
        SaveAction::Finish => {
            &&& folder.transcript == Some(text)
            &&& folder.temporary is None
        },
        _ => folder.transcript == old,
    }
}

/// What is to be done after actions that came out as `outcomes` says.
pub open spec fn save_run(outcomes: Seq<bool>) -> SaveAction
    decreases outcomes.len(),
{
    if outcomes.len() == 0 {
        SaveAction::Encode
    } else {
        save_after(save_run(outcomes.drop_last()), outcomes.last())
    }
}

/// `folders` are states that a folder may pass through while `text` is saved:
/// the one at the start, and one after each action.
pub open spec fn is_save_history(
    text: Seq<char>,
    outcomes: Seq<bool>,
    folders: Seq<Folder>,
) -> bool {
    &&& folders.len() == outcomes.len() + 1
    &&& forall|i: int|
        0 <= i < outcomes.len() ==> may_change(
            save_run(outcomes.take(i)),
            #[trigger] outcomes[i],
            text,
            folders[i],
            folders[i + 1],
        )
}

/// Saving is all or nothing. After any number of actions the transcript file
/// holds the old transcript or the whole new one: the new one where saving has
/// finished, and then no temporary file is left, the old one where it failed.
pub proof fn law_save_is_atomic(text: Seq<char>, outcomes: Seq<bool>, folders: Seq<Folder>)
    requires
        is_save_history(text, outcomes, folders),
    ensures
        save_state(save_run(outcomes), text, folders[0].transcript, folders.last()),
        folders.last().transcript == folders[0].transcript || folders.last().transcript == Some(
            text,
        ),
        save_run(outcomes) == SaveAction::Finish ==> folders.last().transcript == Some(text)
            && folders.last().temporary is None,
        save_run(outcomes) == SaveAction::Fail ==> folders.last().transcript
            == folders[0].transcript,
    decreases outcomes.len(),
{
    if outcomes.len() > 0 {
        let last = outcomes.len() - 1;
        let earlier = outcomes.drop_last();
        assert forall|i: int| 0 <= i < earlier.len() implies may_change(
            save_run(earlier.take(i)),
            #[trigger] earlier[i],
            text,
            folders.drop_last()[i],
            folders.drop_last()[i + 1],
        ) by {
            assert(earlier.take(i) == outcomes.take(i));
            assert(earlier[i] == outcomes[i]);
        }
        law_save_is_atomic(text, earlier, folders.drop_last());
        assert(outcomes.take(last) == earlier);
        assert(may_change(
            save_run(earlier),
            outcomes[last],
            text,
            folders[last],
            folders[last + 1],
        ));
    }
}

} // verus!
