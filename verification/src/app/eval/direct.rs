//! Commands that stand by themselves.
use vstd::prelude::*;
use crate::action::{Ctx, DirectKind, PromptKind, SplitDir};
use crate::app::eval::handle::{
    comment_lines, error, info, insert_mode, is_empty, none, one, parse_save_path, push_word_search, save_path,
    toast_error, toast_info, two, word_search, Cmds,
};
use crate::app::{App, Desk};
use crate::editor::repeat::Step;
use crate::editor::{in_text, Buffer, Doc};
use crate::effect::{cmds_of, Cmd, ScrollAnchor};
use crate::finder::FuzzyKind;
use crate::mode::Mode;
use crate::number::{decimal, number_in, parse_usize, to_decimal};
use crate::text::{copy_str, push_str};

verus! {

/// What a command asks for that leaves the buffer as it is.
pub open spec fn request_of(kind: DirectKind, rest: Seq<char>) -> Option<Cmd<Seq<char>>> {
    match kind {
        DirectKind::EnterMode(m) => Some(Cmd::EnterMode(m)),
        DirectKind::OpenPrompt(k) => Some(Cmd::OpenPrompt(k)),
        DirectKind::ViewportCenter => Some(Cmd::Scroll(ScrollAnchor::Center)),
        DirectKind::ViewportTopAtCursor => Some(Cmd::Scroll(ScrollAnchor::Top)),
        DirectKind::ViewportBottomAtCursor => Some(Cmd::Scroll(ScrollAnchor::Bottom)),
        DirectKind::QuitForce => Some(Cmd::Quit),
        DirectKind::BufferNext => Some(Cmd::BufferCycle { forward: true }),
        DirectKind::BufferPrev => Some(Cmd::BufferCycle { forward: false }),
        DirectKind::BufferDelete => Some(Cmd::BufferDelete { force: false }),
        DirectKind::BufferDeleteForce => Some(Cmd::BufferDelete { force: true }),
        DirectKind::BufferDeleteAll => Some(Cmd::BufferDeleteAll),
        DirectKind::BufferList => Some(Cmd::OpenPrompt(PromptKind::Fuzzy(FuzzyKind::Buffers))),
        DirectKind::NewScratchBuffer => Some(Cmd::NewScratchBuffer),
        DirectKind::SaveAndQuit => Some(Cmd::Save { path: save_path(rest), then_quit: true, force: false }),
        DirectKind::Save => Some(Cmd::Save { path: save_path(rest), then_quit: false, force: false }),
        DirectKind::SaveForce => Some(Cmd::Save { path: save_path(rest), then_quit: false, force: true }),
        DirectKind::Open => Some(
            if rest.len() == 0 {
                error("missing path"@)
            } else {
                Cmd::OpenPath(rest)
            },
        ),
        DirectKind::OpenLog => Some(Cmd::OpenLog),
        DirectKind::Reload => Some(Cmd::Reload),
        DirectKind::ReloadAll => Some(Cmd::ReloadAll),
        DirectKind::LspStatus => Some(Cmd::LspStatus),
        DirectKind::GotoDefinition => Some(
            Cmd::LspJump { method: "textDocument/definition"@, label: "definition"@ },
        ),
        DirectKind::GotoDeclaration => Some(
            Cmd::LspJump { method: "textDocument/declaration"@, label: "declaration"@ },
        ),
        DirectKind::GotoImplementation => Some(
            Cmd::LspJump { method: "textDocument/implementation"@, label: "implementation"@ },
        ),
        DirectKind::FindReferences => Some(Cmd::LspFindReferences),
        DirectKind::Rename => Some(Cmd::OpenRenamePrompt),
        DirectKind::CodeAction => Some(Cmd::LspCodeAction),
        DirectKind::Hover => Some(Cmd::LspHover),
        DirectKind::SearchSelectNext { reverse } => Some(Cmd::SearchSelectMatch { reverse }),
        DirectKind::ClearSearch => Some(Cmd::SetSearch { pattern: Seq::empty(), forward: true }),
        DirectKind::JumpLabel => Some(Cmd::StartJumpLabel),
        DirectKind::SelectWholeBuffer => Some(Cmd::SelectWholeBuffer),
        DirectKind::SplitWindowHorizontal => Some(Cmd::SplitWindow { dir: SplitDir::Horizontal }),
        DirectKind::SplitWindowVertical => Some(Cmd::SplitWindow { dir: SplitDir::Vertical }),
        DirectKind::CloseWindow => Some(Cmd::CloseWindow),
        DirectKind::FocusWindow { dir } => Some(Cmd::FocusWindow { dir }),
        DirectKind::CycleWindow => Some(Cmd::CycleWindow),
        _ => None,
    }
}

/// What a command asks for that leaves the buffer as it is.
pub fn direct_request(kind: DirectKind, rest: &str) -> (r: Option<Cmd>)
    ensures
        match (r, request_of(kind, rest@)) {
            (Some(a), Some(b)) => a@ == b,
            (None, None) => true,
            _ => false,
        },
{
    match kind {
        DirectKind::EnterMode(m) => Some(Cmd::EnterMode(m)),
        DirectKind::OpenPrompt(k) => Some(Cmd::OpenPrompt(k)),
        DirectKind::ViewportCenter => Some(Cmd::Scroll(ScrollAnchor::Center)),
        DirectKind::ViewportTopAtCursor => Some(Cmd::Scroll(ScrollAnchor::Top)),
        DirectKind::ViewportBottomAtCursor => Some(Cmd::Scroll(ScrollAnchor::Bottom)),
        DirectKind::QuitForce => Some(Cmd::Quit),
        DirectKind::BufferNext => Some(Cmd::BufferCycle { forward: true }),
        DirectKind::BufferPrev => Some(Cmd::BufferCycle { forward: false }),
        DirectKind::BufferDelete => Some(Cmd::BufferDelete { force: false }),
        DirectKind::BufferDeleteForce => Some(Cmd::BufferDelete { force: true }),
        DirectKind::BufferDeleteAll => Some(Cmd::BufferDeleteAll),
        DirectKind::BufferList => Some(Cmd::OpenPrompt(PromptKind::Fuzzy(FuzzyKind::Buffers))),
        DirectKind::NewScratchBuffer => Some(Cmd::NewScratchBuffer),
        DirectKind::SaveAndQuit => Some(Cmd::Save { path: parse_save_path(rest), then_quit: true, force: false }),
        DirectKind::Save => Some(Cmd::Save { path: parse_save_path(rest), then_quit: false, force: false }),
        DirectKind::SaveForce => Some(Cmd::Save { path: parse_save_path(rest), then_quit: false, force: true }),
        DirectKind::Open => Some(
            if is_empty(rest) {
                Cmd::ToastError(copy_str("missing path"))
            } else {
                Cmd::OpenPath(copy_str(rest))
            },
        ),
        DirectKind::OpenLog => Some(Cmd::OpenLog),
        DirectKind::Reload => Some(Cmd::Reload),
        DirectKind::ReloadAll => Some(Cmd::ReloadAll),
        DirectKind::LspStatus => Some(Cmd::LspStatus),
        DirectKind::GotoDefinition => Some(lsp_jump("textDocument/definition", "definition")),
        DirectKind::GotoDeclaration => Some(lsp_jump("textDocument/declaration", "declaration")),
        DirectKind::GotoImplementation => Some(lsp_jump("textDocument/implementation", "implementation")),
        DirectKind::FindReferences => Some(Cmd::LspFindReferences),
        DirectKind::Rename => Some(Cmd::OpenRenamePrompt),
        DirectKind::CodeAction => Some(Cmd::LspCodeAction),
        DirectKind::Hover => Some(Cmd::LspHover),
        DirectKind::SearchSelectNext { reverse } => Some(Cmd::SearchSelectMatch { reverse }),
        DirectKind::ClearSearch => {
            proof {
                reveal_strlit("");
            }
            Some(Cmd::SetSearch { pattern: String::new(), forward: true })
        },
        DirectKind::JumpLabel => Some(Cmd::StartJumpLabel),
        DirectKind::SelectWholeBuffer => Some(Cmd::SelectWholeBuffer),
        DirectKind::SplitWindowHorizontal => Some(Cmd::SplitWindow { dir: SplitDir::Horizontal }),
        DirectKind::SplitWindowVertical => Some(Cmd::SplitWindow { dir: SplitDir::Vertical }),
        DirectKind::CloseWindow => Some(Cmd::CloseWindow),
        DirectKind::FocusWindow { dir } => Some(Cmd::FocusWindow { dir }),
        DirectKind::CycleWindow => Some(Cmd::CycleWindow),
        _ => None,
    }
}

fn lsp_jump(method: &str, label: &str) -> (r: Cmd)
    ensures
        r@ == (Cmd::LspJump { method: method@, label: label@ }),
{
    Cmd::LspJump { method: copy_str(method), label: copy_str(label) }
}

/// What an edit that stands by itself does to the buffer. Other commands
/// leave it as it is.
#[verifier::opaque]
pub open spec fn edit_doc(d: Doc, kind: DirectKind, n: int) -> Doc {
    match kind {
        DirectKind::OpenLineBelow => d.open_below(),
        DirectKind::OpenLineAbove => d.open_above(),
        DirectKind::AppendAfterCursor => d.right(true),
        DirectKind::AppendAtLineEnd => d.at(d.cursor.row as int, d.line().len() as int),
        DirectKind::InsertAtLineStart => d.first_non_blank(),
        DirectKind::ChangeToEol => d.delete_to_eol(),
        DirectKind::DeleteToEol => d.delete_to_eol(),
        DirectKind::YankLine => d.repeated(Step::YankLine, n),
        DirectKind::JoinLines => d.repeated(Step::JoinNext, n),
        DirectKind::ToggleCase => d.repeated(Step::ToggleCase, n),
        DirectKind::SubstituteChar => d.repeated(Step::DeleteChar, n),
        DirectKind::SubstituteLine => d.clear_line(),
        DirectKind::ReplaceChar { ch } => d.replaced(ch, n),
        DirectKind::Paste => d.repeated(Step::Paste, n),
        DirectKind::Undo => d.undone(),
        DirectKind::Redo => d.redone(),
        DirectKind::DeleteCharUnderCursor => d.repeated(Step::DeleteChar, n),
        _ => d,
    }
}

/// What such an edit asks for once it is done.
pub open spec fn edit_cmds(d: Doc, kind: DirectKind) -> Cmds {
    match kind {
        DirectKind::OpenLineBelow => seq![Cmd::EnterMode(Mode::Insert)],
        DirectKind::OpenLineAbove => seq![Cmd::EnterMode(Mode::Insert)],
        DirectKind::AppendAfterCursor => seq![Cmd::EnterMode(Mode::Insert)],
        DirectKind::AppendAtLineEnd => seq![Cmd::EnterMode(Mode::Insert)],
        DirectKind::InsertAtLineStart => seq![Cmd::EnterMode(Mode::Insert)],
        DirectKind::ChangeToEol => seq![Cmd::EnterMode(Mode::Insert)],
        DirectKind::SubstituteChar => seq![Cmd::EnterMode(Mode::Insert)],
        DirectKind::SubstituteLine => seq![Cmd::EnterMode(Mode::Insert)],
        DirectKind::YankLine => seq![Cmd::SyncYank, info("yanked"@)],
        DirectKind::Undo => if d.undo.len() == 0 {
            seq![error("already at oldest change"@)]
        } else {
            Seq::empty()
        },
        DirectKind::Redo => if d.redo.len() == 0 {
            seq![error("already at newest change"@)]
        } else {
            Seq::empty()
        },
        _ => Seq::empty(),
    }
}

/// Runs an edit that stands by itself.
#[verifier::rlimit(30)]
pub fn direct_edit(buf: &mut Buffer, kind: DirectKind, count: u32) -> (r: Vec<Cmd>)
    requires
        old(buf)@.wf(),
    ensures
        final(buf)@ == edit_doc(old(buf)@, kind, count as int),
        cmds_of(r@) == edit_cmds(old(buf)@, kind),
        final(buf)@.wf(),
{
    reveal(edit_doc);
    match kind {
        DirectKind::OpenLineBelow => {
            buf.insert_line_below();
            insert_mode()
        },
        DirectKind::OpenLineAbove => {
            buf.insert_line_above();
            insert_mode()
        },
        DirectKind::AppendAfterCursor => {
            buf.move_right(true);
            insert_mode()
        },
        DirectKind::AppendAtLineEnd => {
            buf.cursor.col = buf.current_line_len();
            insert_mode()
        },
        DirectKind::InsertAtLineStart => {
            buf.move_first_non_blank();
            insert_mode()
        },
        DirectKind::ChangeToEol => {
            buf.delete_to_eol();
            insert_mode()
        },
        DirectKind::DeleteToEol => {
            buf.delete_to_eol();
            none()
        },
        DirectKind::YankLine => {
            buf.repeat(Step::YankLine, count);
            two(Cmd::SyncYank, Cmd::ToastInfo(copy_str("yanked")))
        },
        DirectKind::JoinLines => {
            buf.repeat(Step::JoinNext, count);
            none()
        },
        DirectKind::ToggleCase => {
            buf.repeat(Step::ToggleCase, count);
            none()
        },
        DirectKind::SubstituteChar => {
            buf.repeat(Step::DeleteChar, count);
            insert_mode()
        },
        DirectKind::SubstituteLine => {
            buf.clear_current_line();
            insert_mode()
        },
        DirectKind::ReplaceChar { ch } => {
            buf.replace_chars(ch, count);
            none()
        },
        DirectKind::Paste => {
            buf.repeat(Step::Paste, count);
            none()
        },
        DirectKind::Undo => {
            if buf.undo() {
                none()
            } else {
                toast_error("already at oldest change")
            }
        },
        DirectKind::Redo => {
            if buf.redo() {
                none()
            } else {
                toast_error("already at newest change")
            }
        },
        DirectKind::DeleteCharUnderCursor => {
            buf.repeat(Step::DeleteChar, count);
            none()
        },
        _ => none(),
    }
}

impl Desk {
    /// A command that stands by itself: what it does to the buffer, and what
    /// it asks for.
    pub open spec fn direct(self, kind: DirectKind, count: u32, rest: Seq<char>) -> (Desk, Cmds) {
        let d = self.doc;
        match request_of(kind, rest) {
            Some(c) => (self, seq![c]),
            None => match kind {
                DirectKind::Quit => (self, seq![self.quit_plan()]),
                DirectKind::GotoLine => match number_in(rest) {
                    Some(k) => if k >= 1 {
                        (self.with_doc(d.goto_line(k)), Seq::empty())
                    } else {
                        (self, seq![error("usage: :goto <line>"@)])
                    },
                    None => (self, seq![error("usage: :goto <line>"@)]),
                },
                DirectKind::SearchWordKeep { forward } => (self, word_search(d, forward, false)),
                DirectKind::Substitute => self.run_substitute(rest),
                DirectKind::MultiCursorAddNext => self.add_next_cursor(),
                DirectKind::MultiCursorPop => self.pop_cursor(),
                DirectKind::MultiCursorClear => self.clear_cursors(),
                DirectKind::ToggleComment => match self.comment_token() {
                    Some(token) => (self.with_doc(d.comment_lines(token, count as int)), Seq::empty()),
                    None => (self, seq![error("no comment token for this buffer"@)]),
                },
                _ => (self.with_doc(edit_doc(d, kind, count as int)), edit_cmds(d, kind)),
            },
        }
    }

    /// Goes back to the extra cursor that was added last.
    pub open spec fn pop_cursor(self) -> (Desk, Cmds) {
        let d = self.doc;
        if d.extra.len() > 0 {
            (self.with_doc(Doc { cursor: d.extra.last(), extra: d.extra.drop_last(), ..d }), Seq::empty())
        } else {
            (self, seq![info("no extra cursor to remove"@)])
        }
    }

    /// Drops the extra cursors.
    pub open spec fn clear_cursors(self) -> (Desk, Cmds) {
        let d = self.doc;
        if d.extra.len() == 0 {
            (self, seq![info("no extra cursors"@)])
        } else {
            (
                self.with_doc(Doc { extra: Seq::empty(), ..d }),
                seq![info("cleared "@ + decimal(d.extra.len() as int) + " extra cursors"@)],
            )
        }
    }

    /// The extra cursor that was added last is in the text.
    pub open spec fn last_extra_holds(self) -> bool {
        self.doc.extra.len() > 0 ==> in_text(self.doc.text, self.doc.extra.last())
    }
}

impl App {
    /// Runs a command that stands by itself.
    pub fn handle_direct(&mut self, kind: DirectKind, count: u32, ctx: Ctx) -> (r: Vec<Cmd>)
        requires
            old(self).wf(),
            old(self)@.anchor is None,
            !(kind is RepeatLast),
        ensures
            (final(self)@, cmds_of(r@)) == old(self)@.direct(kind, count, ctx.rest@),
            final(self)@ == old(self)@.with_doc(final(self)@.doc),
            final(self).sound(),
            (kind is MultiCursorPop ==> old(self)@.last_extra_holds()) || r@.len() > 0 ==> final(self).wf(),
    {
        if let Some(c) = direct_request(kind, ctx.rest) {
            return one(c);
        }
        match kind {
            DirectKind::Quit => one(self.plan_quit()),
            DirectKind::GotoLine => match parse_usize(ctx.rest) {
                Some(n) => {
                    if n >= 1 {
                        self.buffer.goto_line_n(n);
                        none()
                    } else {
                        toast_error("usage: :goto <line>")
                    }
                },
                None => toast_error("usage: :goto <line>"),
            },
            DirectKind::SearchWordKeep { forward } => push_word_search(&self.buffer, forward, false),
            DirectKind::Substitute => self.run_substitute(ctx.rest),
            DirectKind::MultiCursorAddNext => self.add_next_cursor(),
            DirectKind::MultiCursorPop => self.pop_cursor(),
            DirectKind::MultiCursorClear => self.clear_cursors(),
            DirectKind::ToggleComment => match self.buffer_comment_token() {
                Some(token) => {
                    comment_lines(&mut self.buffer, token.as_str(), count);
                    none()
                },
                None => toast_error("no comment token for this buffer"),
            },
            _ => direct_edit(&mut self.buffer, kind, count),
        }
    }

    /// Goes back to the extra cursor that was added last.
    pub fn pop_cursor(&mut self) -> (r: Vec<Cmd>)
        requires
            old(self).wf(),
            old(self)@.anchor is None,
        ensures
            (final(self)@, cmds_of(r@)) == old(self)@.pop_cursor(),
            final(self).sound(),
            old(self)@.last_extra_holds() || r@.len() > 0 ==> final(self).wf(),
    {
        match self.buffer.extra_cursors.pop() {
            Some(c) => {
                self.buffer.cursor = c;
                let r = none();
                assert(cmds_of(r@).len() == r@.len());
                r
            },
            None => toast_info("no extra cursor to remove"),
        }
    }

    /// Drops the extra cursors.
    pub fn clear_cursors(&mut self) -> (r: Vec<Cmd>)
        requires
            old(self).wf(),
        ensures
            (final(self)@, cmds_of(r@)) == old(self)@.clear_cursors(),
            final(self).wf(),
    {
        let n = self.buffer.extra_cursors.len();
        if n == 0 {
            return toast_info("no extra cursors");
        }
        self.buffer.extra_cursors = Vec::new();
        let mut m = copy_str("cleared ");
        push_str(&mut m, to_decimal(n).as_str());
        push_str(&mut m, " extra cursors");
        one(Cmd::ToastInfo(m))
    }
}

} // verus!
