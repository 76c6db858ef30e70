//! What the answers of the language servers come to in the editor.
use vstd::prelude::*;
use crate::app::lsp_apply::{edit_message, location_text, EditPurpose, LspStep};
use crate::app::open::ServerStep;
use crate::app::{Desk, Menu};
use crate::editor::Cursor;
use crate::lsp::coordinator::Board;
use crate::lsp::group::LspEventOutcome;
use crate::lsp::{CodeAction, CompletionItem, Location, Position, WorkspaceEdit};
use crate::number::decimal;

verus! {

/// A jump goes to the first place that was named; with none there is a message
/// and the editor stays as it is.
pub proof fn law_jumping(
    desk: Desk,
    label: Seq<char>,
    places: Seq<Location>,
    uri: Option<Seq<char>>,
    after: Desk,
    step: LspStep,
)
    requires
        desk.outcome_step((LspEventOutcome::Jump { label, locations: places }), uri, after, step),
    ensures
        places.len() > 0 ==> after == desk && (step matches LspStep::Goto(l) && l == places[0]),
        places.len() == 0 ==> step is Done && after == (Desk { said: after.said, ..desk }) && after.said.0 is Info,
{
}

/// One reference is gone to, several are listed in the order in which they came,
/// and with none there is a message.
pub proof fn law_references(
    desk: Desk,
    places: Seq<Location>,
    uri: Option<Seq<char>>,
    after: Desk,
    step: LspStep,
)
    requires
        desk.outcome_step(LspEventOutcome::References(places), uri, after, step),
    ensures
        places.len() == 1 ==> after == desk && (step matches LspStep::Goto(l) && l == places[0]),
        places.len() > 1 ==> after == desk && (step matches LspStep::PickLocation(v) && v@ == places),
        places.len() == 0 ==> step is Done && after == (Desk { said: after.said, ..desk }) && after.said.0 is Info,
{
}

/// A rename comes to the edit that was answered, and actions to a list of them;
/// with none there is a message.
pub proof fn law_renames_and_actions(
    desk: Desk,
    name: Seq<char>,
    edit: Option<WorkspaceEdit>,
    actions: Seq<CodeAction>,
    uri: Option<Seq<char>>,
    after: Desk,
    step: LspStep,
)
    ensures
        desk.outcome_step((LspEventOutcome::Rename { new_name: name, edit }), uri, after, step) ==> {
            &&& edit is None ==> step is Done && after.doc == desk.doc && after.said.0 is Info
            &&& edit matches Some(e) ==> after == desk && (step matches LspStep::Edit(p, plan) && p@
                == EditPurpose::Rename(name) && e.comes_to(uri, plan))
        },
        desk.outcome_step(LspEventOutcome::CodeActions(actions), uri, after, step) ==> {
            &&& actions.len() == 0 ==> step is Done && after.doc == desk.doc && after.said.0 is Info
            &&& actions.len() > 0 ==> after == desk && (step matches LspStep::PickAction(v) && v@ == actions)
        },
{
}

/// A hover text is shown as it came. Messages are shown, errors as errors, and
/// nothing else changes.
pub proof fn law_hover_and_messages(
    desk: Desk,
    text: Seq<char>,
    uri: Option<Seq<char>>,
    after: Desk,
    step: LspStep,
)
    ensures
        desk.outcome_step(LspEventOutcome::Hover(Some(text)), uri, after, step) ==> after == desk && (
        step matches LspStep::ShowHover(t) && t@ == text),
        desk.outcome_step(LspEventOutcome::Hover(None), uri, after, step) ==> after.doc == desk.doc && step is Done,
        desk.outcome_step(LspEventOutcome::Nothing, uri, after, step) ==> after == desk && step is Done,
        desk.outcome_step(LspEventOutcome::InfoMessage(text), uri, after, step) ==> step is Done && after == (Desk {
            said: after.said,
            ..desk
        }) && after.said.0 is Info && after.said.1 == text,
        desk.outcome_step(LspEventOutcome::ErrorMessage(text), uri, after, step) ==> step is Done && after == (Desk {
            said: after.said,
            ..desk
        }) && after.said.0 is Error && after.said.1 == text,
{
}

/// Completions are offered in the menu. Details of an item that come later are
/// filled in at that item and at no other.
pub proof fn law_completions(
    desk: Desk,
    start: Cursor,
    items: Seq<CompletionItem>,
    uri: Option<Seq<char>>,
    after: Desk,
    step: LspStep,
    m: Menu,
    i: int,
    detail: String,
)
    ensures
        desk.outcome_step((LspEventOutcome::Completion { prefix_start: start, items }), uri, after, step) ==> after
            == desk.menu_offered(start, items) && step is Done,
        0 <= i < m.items.len() ==> ({
            let f = m.filled(i, Some(detail));
            &&& f.items.len() == m.items.len()
            &&& f.items[i].detail == Some(detail)
            &&& f.items[i].label == m.items[i].label
            &&& forall|k: int| 0 <= k < m.items.len() && k != i ==> (#[trigger] f.items[k]) == m.items[k]
            &&& f.rows == m.rows
            &&& f.selected == m.selected
        }),
        m.filled(i, None) == m,
{
}

/// The message after an edit tells what was done, in how many places and in how
/// many files; a place is shown with its line and character counted from one.
pub proof fn law_messages_count(name: Seq<char>, edits: int, files: int, uri: Seq<char>, path: Seq<char>, root: Seq<char>, p: Position)
    ensures
        edit_message(EditPurpose::Rename(name), edits, files) == "renamed to "@ + name + " ("@ + decimal(edits)
            + " occurrences in "@ + decimal(files) + " files)"@,
        edit_message(EditPurpose::Action(name), edits, files) == name + " ("@ + decimal(edits) + " edits in "@
            + decimal(files) + " files)"@,
        location_text(uri, None, root, p) == uri,
        location_text(uri, Some(path), root, p) == crate::app::input::shown_below(root, path) + ":"@ + decimal(
            p.line as int + 1,
        ) + ":"@ + decimal(p.character as int + 1),
{
}

/// For each server of the buffer's language there is one step, in their order: a
/// running one is told of the document, another one is started.
pub proof fn law_servers_of_a_language(desk: Desk, b: Board)
    ensures
        desk.language() is None ==> desk.server_steps(b).len() == 0,
        desk.language() matches Some(l) ==> {
            &&& desk.server_steps(b).len() == l.lsp@.len()
            &&& forall|i: int|
                0 <= i < l.lsp@.len() ==> {
                    let key = l.name@ + "::"@ + l.lsp@[i].name@;
                    (#[trigger] desk.server_steps(b)[i]) == if b.runs(key) {
                        ServerStep::Open(key)
                    } else {
                        ServerStep::Start { key, server: i as usize }
                    }
                }
        },
{
}

} // verus!
