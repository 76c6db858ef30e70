//! What the editor makes of the servers' answers.
use vstd::prelude::*;
use crate::app::input::{shown_below, strip_dir};
use crate::app::runtime::rewrite;
use crate::app::status::Level;
use crate::app::{App, Desk, Menu};
use crate::editor::{least, Buffer, Cursor, Doc};
use crate::lsp::coordinator::{Board, LspCoordinator, LspEvent};
use crate::lsp::group::{LspEventOutcome, OutcomeView};
use crate::lsp::requests::{plan_workspace_edit, WorkspaceEditResult};
use crate::lsp::{edits_of, CodeAction, CompletionItem, Location, Position, TextEdit};
use crate::number::{decimal, sum_to_decimal, to_decimal, wide_to_decimal};
use crate::text::{chars_of, copy_str, join, join_lines, opt_str, push_str};

verus! {

/// What an edit of several documents is for.
#[derive(Debug)]
pub enum EditPurpose<S = String> {
    Rename(S),
    Action(S),
}

impl View for EditPurpose {
    type V = EditPurpose<Seq<char>>;

    open spec fn view(&self) -> EditPurpose<Seq<char>> {
        match self {
            EditPurpose::Rename(s) => EditPurpose::Rename(s@),
            EditPurpose::Action(s) => EditPurpose::Action(s@),
        }
    }
}

/// What is left to do once an answer was taken in.
#[derive(Debug)]
pub enum LspStep {
    Done,
    /// Go to a place, which may be in another file.
    Goto(Location),
    /// Let the user choose a place.
    PickLocation(Vec<Location>),
    /// Let the user choose an action.
    PickAction(Vec<CodeAction>),
    ShowHover(String),
    /// Write the edits of the other files, then finish with those of the
    /// buffer.
    Edit(EditPurpose, WorkspaceEditResult),
    /// Ask the client that an action came from to fill it in.
    ResolveAction { raw: String, source: String },
}

/// The message once an edit is done.
pub open spec fn edit_message(purpose: EditPurpose<Seq<char>>, edits: int, files: int) -> Seq<char> {
    match purpose {
        EditPurpose::Rename(name) => "renamed to "@ + name + " ("@ + decimal(edits) + " occurrences in "@ + decimal(files)
            + " files)"@,
        EditPurpose::Action(title) => title + " ("@ + decimal(edits) + " edits in "@ + decimal(files) + " files)"@,
    }
}

fn say_edit(purpose: &EditPurpose, edits: u128, files: usize) -> (r: String)
    ensures
        r@ == edit_message(purpose@, edits as int, files as int),
{
    let mut s = String::new();
    proof {
        reveal_strlit("");
    }
    match purpose {
        EditPurpose::Rename(name) => {
            push_str(&mut s, "renamed to ");
            assert(s@ =~= "renamed to "@);
            push_str(&mut s, name.as_str());
            push_str(&mut s, " (");
            push_str(&mut s, wide_to_decimal(edits).as_str());
            push_str(&mut s, " occurrences in ");
        },
        EditPurpose::Action(title) => {
            push_str(&mut s, title.as_str());
            assert(s@ =~= title@);
            push_str(&mut s, " (");
            push_str(&mut s, wide_to_decimal(edits).as_str());
            push_str(&mut s, " edits in ");
        },
    }
    push_str(&mut s, to_decimal(files).as_str());
    push_str(&mut s, " files)");
    s
}

/// A place as a picker shows it: the path below a directory, the line and the
/// character, counted from one. The URI where it is no path.
pub open spec fn location_text(uri: Seq<char>, path: Option<Seq<char>>, root: Seq<char>, p: Position) -> Seq<char> {
    match path {
        None => uri,
        Some(s) => shown_below(root, s) + ":"@ + decimal(p.line + 1) + ":"@ + decimal(p.character + 1),
    }
}

/// A place as a picker shows it.
pub fn format_location_label(loc: &Location, path: Option<&str>, root: &str) -> (r: String)
    ensures
        r@ == location_text(
            loc.uri@,
            match path {
                Some(p) => Some(p@),
                None => None,
            },
            root@,
            loc.range.start,
        ),
{
    match path {
        None => loc.uri.clone(),
        Some(p) => {
            let mut s = strip_dir(root, p);
            push_str(&mut s, ":");
            push_str(&mut s, sum_to_decimal(loc.range.start.line as usize, 1).as_str());
            push_str(&mut s, ":");
            push_str(&mut s, sum_to_decimal(loc.range.start.character as usize, 1).as_str());
            s
        },
    }
}

impl Doc {
    /// The cursor at a place that a server named, or as near as the text has
    /// it.
    pub open spec fn placed(self, p: Position) -> Doc {
        self.at(least(p.line as int, self.text.len() - 1), p.character as int).clamped(false)
    }
}

impl Menu {
    /// An item that its server has filled in. What it adds is shown.
    pub open spec fn filled(self, index: int, detail: Option<String>) -> Menu {
        if 0 <= index < self.items.len() && detail is Some {
            Menu { items: self.items.update(index, CompletionItem { detail, ..self.items[index] }), ..self }
        } else {
            self
        }
    }
}

impl Desk {
    /// Edits of a server to the buffer.
    pub open spec fn served(self, edits: Seq<TextEdit<Seq<char>>>) -> Desk {
        if edits.len() == 0 {
            self
        } else {
            self.with_doc(self.doc.rewritten(edits))
        }
    }

    pub open spec fn edit_done(
        self,
        purpose: EditPurpose<Seq<char>>,
        edits: Seq<TextEdit<Seq<char>>>,
        total: int,
        files: int,
    ) -> Desk {
        self.served(edits).saying(Level::Info, edit_message(purpose, total, files))
    }

    pub open spec fn item_filled(self, index: int, detail: Option<String>) -> Desk {
        match self.menu {
            Some(m) => Desk { menu: Some(m.filled(index, detail)), ..self },
            None => self,
        }
    }

    /// Whether an action leads to another state and a step: an action that
    /// names no edit has nothing to do.
    pub open spec fn action_step(self, action: CodeAction, uri: Option<Seq<char>>, after: Desk, step: LspStep) -> bool {
        match action.edit {
            None => {
                &&& after == self.saying(Level::Info, "code action: "@ + action.title@ + " (no edit)"@)
                &&& step is Done
            },
            Some(e) => {
                &&& after == self
                &&& step matches LspStep::Edit(p, plan)
                &&& p@ == EditPurpose::Action(action.title@)
                &&& e.comes_to(uri, plan)
            },
        }
    }

    /// Whether an outcome leads to another state and a step.
    pub open spec fn outcome_step(
        self,
        outcome: OutcomeView,
        uri: Option<Seq<char>>,
        after: Desk,
        step: LspStep,
    ) -> bool {
        match outcome {
            LspEventOutcome::Nothing => after == self && step is Done,
            LspEventOutcome::InfoMessage(s) => after == self.saying(Level::Info, s) && step is Done,
            LspEventOutcome::ErrorMessage(s) => after == self.saying(Level::Error, s) && step is Done,
            LspEventOutcome::Jump { label, locations } => if locations.len() == 0 {
                after == self.saying(Level::Info, "no "@ + label) && step is Done
            } else {
                &&& after == self
                &&& step matches LspStep::Goto(l)
                &&& l == locations[0]
            },
            LspEventOutcome::References(locations) => if locations.len() == 0 {
                after == self.saying(Level::Info, "no references"@) && step is Done
            } else if locations.len() == 1 {
                &&& after == self
                &&& step matches LspStep::Goto(l)
                &&& l == locations[0]
            } else {
                &&& after == self
                &&& step matches LspStep::PickLocation(v)
                &&& v@ == locations
            },
            LspEventOutcome::Rename { new_name, edit } => match edit {
                None => after == self.saying(Level::Info, "rename: nothing to change"@) && step is Done,
                Some(e) => {
                    &&& after == self
                    &&& step matches LspStep::Edit(p, plan)
                    &&& p@ == EditPurpose::Rename(new_name)
                    &&& e.comes_to(uri, plan)
                },
            },
            LspEventOutcome::CodeActions(actions) => if actions.len() == 0 {
                after == self.saying(Level::Info, "no code actions"@) && step is Done
            } else {
                &&& after == self
                &&& step matches LspStep::PickAction(v)
                &&& v@ == actions
            },
            LspEventOutcome::CodeActionResolved(action) => match action {
                None => after == self.saying(Level::Error, "code action: server returned no action"@)
                    && step is Done,
                Some(a) => self.action_step(a, uri, after, step),
            },
            LspEventOutcome::Hover(h) => match h {
                None => after == self.saying(Level::Info, "no hover info"@) && step is Done,
                Some(s) => {
                    &&& after == self
                    &&& step matches LspStep::ShowHover(t)
                    &&& t@ == s
                },
            },
            LspEventOutcome::Completion { prefix_start, items } => after == self.menu_offered(prefix_start, items)
                && step is Done,
            LspEventOutcome::CompletionResolved { uri: asked, item_index, item } => {
                &&& step is Done
                &&& match (item, item_index) {
                    (None, _) => after == self,
                    (Some(it), Some(i)) => after == self.item_filled(i as int, it.detail),
                    (Some(it), None) => after == self.resolved(asked, uri, edits_of(it.additional_text_edits@)),
                }
            },
        }
    }
}

impl App {
    /// Says that there is no server where there is none.
    pub fn need_lsp(&mut self, has_lsp: bool) -> (r: bool)
        ensures
            r == has_lsp,
            final(self)@ == if has_lsp {
                old(self)@
            } else {
                old(self)@.saying(Level::Error, "no LSP for this buffer"@)
            },
    {
        if !has_lsp {
            self.say(Level::Error, "no LSP for this buffer");
        }
        has_lsp
    }

    /// Whether a new name is to be asked for.
    pub fn submit_rename(&mut self, new_name: &str, has_lsp: bool) -> (r: bool)
        ensures
            r == (new_name@.len() > 0 && has_lsp),
            final(self)@ == if new_name@.len() == 0 {
                old(self)@.saying(Level::Error, "rename: empty name"@)
            } else if !has_lsp {
                old(self)@.saying(Level::Error, "no LSP for this buffer"@)
            } else {
                old(self)@
            },
    {
        if chars_of(new_name).len() == 0 {
            self.say(Level::Error, "rename: empty name");
            return false;
        }
        self.need_lsp(has_lsp)
    }

    /// Starts on an action: its edit, or what is missing of it.
    pub fn apply_code_action(&mut self, action: CodeAction, uri: Option<&str>) -> (r: LspStep)
        ensures
            old(self)@.action_step(
                action,
                match uri {
                    Some(u) => Some(u@),
                    None => None,
                },
                final(self)@,
                r,
            ),
    {
        match action.edit {
            None => {
                let mut s = copy_str("code action: ");
                push_str(&mut s, action.title.as_str());
                push_str(&mut s, " (no edit)");
                self.say(Level::Info, s.as_str());
                LspStep::Done
            },
            Some(e) => LspStep::Edit(EditPurpose::Action(action.title), plan_workspace_edit(e, uri)),
        }
    }

    /// Starts on an action that was chosen. One that names no edit is filled
    /// in by its server first.
    pub fn submit_code_action(&mut self, action: CodeAction, uri: Option<&str>, has_lsp: bool) -> (r: LspStep)
        ensures
            match action.edit {
                Some(e) => old(self)@.action_step(
                    action,
                    match uri {
                        Some(u) => Some(u@),
                        None => None,
                    },
                    final(self)@,
                    r,
                ),
                None => if has_lsp {
                    &&& final(self)@ == old(self)@
                    &&& r matches LspStep::ResolveAction { raw, source }
                    &&& raw@ == action.raw@
                    &&& source@ == action.source@
                } else {
                    final(self)@ == old(self)@.saying(Level::Error, "no LSP for this buffer"@) && r is Done
                },
            },
    {
        if action.edit.is_some() {
            return self.apply_code_action(action, uri);
        }
        if self.need_lsp(has_lsp) {
            LspStep::ResolveAction { raw: action.raw, source: action.source }
        } else {
            LspStep::Done
        }
    }

    fn serve(&mut self, edits: Vec<TextEdit>)
        requires
            old(self).wf(),
        ensures
            final(self)@ == old(self)@.served(edits_of(edits@)),
            final(self).sound(),
    {
        assert(edits_of(edits@).len() == edits@.len());
        if edits.len() == 0 {
            return;
        }
        rewrite(&mut self.buffer, edits);
    }

    /// Ends an edit of several documents, once the other files are written.
    pub fn finish_workspace_edit(&mut self, purpose: EditPurpose, plan: WorkspaceEditResult)
        requires
            old(self).wf(),
        ensures
            final(self)@ == old(self)@.edit_done(
                purpose@,
                edits_of(plan.current_buffer_edits@),
                plan.total_edits as int,
                plan.files_touched as int,
            ),
            final(self).sound(),
    {
        let s = say_edit(&purpose, plan.total_edits, plan.files_touched);
        self.serve(plan.current_buffer_edits);
        self.say(Level::Info, s.as_str());
    }

    fn fill_item(&mut self, index: usize, detail: Option<String>)
        ensures
            final(self)@ == old(self)@.item_filled(index as int, detail),
    {
        if let Some(mut state) = self.completion.take() {
            let ghost before = state@;
            if index < state.items.len() && detail.is_some() {
                let ghost items = state.items@;
                state.items[index].detail = detail;
                assert(state.items@ =~= items.update(
                    index as int,
                    CompletionItem { detail, ..items[index as int] },
                ));
                assert(state@ =~= before.filled(index as int, detail));
            }
            self.completion = Some(state);
        }
    }

    /// Takes an outcome over. `uri` is the document that is open.
    pub fn handle_lsp_outcome(&mut self, outcome: LspEventOutcome, uri: &Option<String>) -> (r: LspStep)
        requires
            old(self).wf(),
        ensures
            old(self)@.outcome_step(outcome@, opt_str(*uri), final(self)@, r),
            final(self).sound(),
            final(self)@.doc == old(self)@.doc ==> final(self).wf(),
    {
        let open: Option<&str> = match uri {
            Some(u) => Some(u.as_str()),
            None => None,
        };
        match outcome {
            LspEventOutcome::Nothing => LspStep::Done,
            LspEventOutcome::InfoMessage(s) => {
                self.say(Level::Info, s.as_str());
                LspStep::Done
            },
            LspEventOutcome::ErrorMessage(s) => {
                self.say(Level::Error, s.as_str());
                LspStep::Done
            },
            LspEventOutcome::Jump { label, locations } => self.apply_jump_outcome(label, locations),
            LspEventOutcome::References(locations) => self.apply_references_outcome(locations),
            LspEventOutcome::Rename { new_name, edit } => match edit {
                None => {
                    self.say(Level::Info, "rename: nothing to change");
                    LspStep::Done
                },
                Some(e) => LspStep::Edit(EditPurpose::Rename(new_name), plan_workspace_edit(e, open)),
            },
            LspEventOutcome::CodeActions(actions) => {
                if actions.len() == 0 {
                    self.say(Level::Info, "no code actions");
                    LspStep::Done
                } else {
                    LspStep::PickAction(actions)
                }
            },
            LspEventOutcome::CodeActionResolved(action) => match action {
                None => {
                    self.say(Level::Error, "code action: server returned no action");
                    LspStep::Done
                },
                Some(a) => self.apply_code_action(a, open),
            },
            LspEventOutcome::Hover(h) => match h {
                None => {
                    self.say(Level::Info, "no hover info");
                    LspStep::Done
                },
                Some(s) => LspStep::ShowHover(s),
            },
            LspEventOutcome::Completion { prefix_start, items } => {
                self.apply_completion_outcome(prefix_start, items);
                LspStep::Done
            },
            LspEventOutcome::CompletionResolved { uri: asked, item_index, item } => {
                if let Some(it) = item {
                    match item_index {
                        Some(i) => self.fill_item(i, it.detail),
                        None => self.apply_completion_resolved_outcome(asked.as_str(), uri, it.additional_text_edits),
                    }
                }
                LspStep::Done
            },
        }
    }

    /// Takes in what a server says, and what comes of it.
    pub fn handle_lsp_event(&mut self, lsp: &mut LspCoordinator, ev: LspEvent) -> (r: LspStep)
        requires
            old(self).wf(),
        ensures
            exists|o: OutcomeView| #[trigger]
                old(lsp)@.heard(ev, final(lsp)@, o) && old(self)@.outcome_step(
                    o,
                    final(lsp)@.uri,
                    final(self)@,
                    r,
                ),
            final(self).sound(),
            final(self)@.doc == old(self)@.doc ==> final(self).wf(),
    {
        let outcome = lsp.handle_event(ev);
        assert(old(lsp)@.heard(ev, lsp@, outcome@));
        self.handle_lsp_outcome(outcome, &lsp.current_uri)
    }

    fn apply_jump_outcome(&mut self, label: String, locations: Vec<Location>) -> (r: LspStep)
        ensures
            old(self)@.outcome_step(
                OutcomeView::Jump { label: label@, locations: locations@ },
                None,
                final(self)@,
                r,
            ),
    {
        let mut locations = locations;
        if locations.len() == 0 {
            let mut s = copy_str("no ");
            push_str(&mut s, label.as_str());
            self.say(Level::Info, s.as_str());
            LspStep::Done
        } else {
            LspStep::Goto(locations.remove(0))
        }
    }

    fn apply_references_outcome(&mut self, locations: Vec<Location>) -> (r: LspStep)
        ensures
            old(self)@.outcome_step(OutcomeView::References(locations@), None, final(self)@, r),
    {
        let mut locations = locations;
        if locations.len() == 0 {
            self.say(Level::Info, "no references");
            LspStep::Done
        } else if locations.len() == 1 {
            LspStep::Goto(locations.remove(0))
        } else {
            LspStep::PickLocation(locations)
        }
    }
}

/// Puts the cursor at a place that a server named.
pub fn place_cursor(buf: &mut Buffer, p: Position)
    requires
        old(buf)@.wf(),
    ensures
        final(buf)@ == old(buf)@.placed(p),
        final(buf)@.wf(),
{
    assert(buf@.text.len() == buf.lines@.len());
    let last = buf.lines.len() - 1;
    let row = p.line as usize;
    buf.cursor = Cursor { row: if row < last { row } else { last }, col: p.character as usize };
    buf.clamp_col(false);
}

impl LspCoordinator {
    /// The text to send where the buffer was changed since it was last sent.
    pub fn sync_buffer_if_dirty(&mut self, buf: &Buffer) -> (r: Option<String>)
        ensures
            final(self)@ == (Board { synced: buf@.version, ..old(self)@ }),
            match r {
                Some(t) => buf@.version != old(self)@.synced && t@ == join(buf@.text, 0, buf@.text.len() as int),
                None => buf@.version == old(self)@.synced,
            },
    {
        if buf.version == self.last_synced_version() {
            return None;
        }
        self.set_last_synced_version(buf.version);
        assert(buf@.text.len() == buf.lines@.len());
        let n = buf.lines.len();
        Some(join_lines(&buf.lines, 0, n))
    }
}

} // verus!
