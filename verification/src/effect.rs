//! The state changes outside the text that evaluating a command asks for.
use vstd::prelude::*;
use crate::action::{FocusDir, LastFind, PromptKind, SplitDir};
use crate::mode::Mode;

verus! {

/// Where the cursor's row lands in the viewport.
#[derive(Debug, Clone, Copy, PartialEq, Eq, Structural)]
pub enum ScrollAnchor {
    Top,
    Center,
    Bottom,
}

/// One state change beyond the buffer. A command may ask for several; they
/// are applied in order.
#[derive(Debug)]
#[allow(inconsistent_fields)]
pub enum Cmd<S = String> {
    EnterMode(Mode),
    StatusInfo(S),
    StatusError(S),
    ToastInfo(S),
    ToastError(S),
    /// Hand the yank register to the system clipboard.
    SyncYank,
    OpenPrompt(PromptKind),
    OpenRenamePrompt,
    SetSearch { pattern: S, forward: bool },
    /// Go to the next match; `reverse` flips the stored direction.
    JumpSearch { reverse: bool },
    /// Select the next match; `reverse` flips the stored direction.
    SearchSelectMatch { reverse: bool },
    SetLastFind(LastFind),
    Scroll(ScrollAnchor),
    /// Write the buffer, to `path` where one is given, and quit afterwards
    /// where asked to and the write succeeded.
    Save { path: Option<S>, then_quit: bool, force: bool },
    OpenPath(S),
    OpenLog,
    Reload,
    ReloadAll,
    LspStatus,
    LspJump { method: S, label: S },
    LspFindReferences,
    LspCodeAction,
    LspHover,
    BufferCycle { forward: bool },
    BufferDelete { force: bool },
    BufferDeleteAll,
    NewScratchBuffer,
    StartJumpLabel,
    SelectWholeBuffer,
    SplitWindow { dir: SplitDir },
    CloseWindow,
    FocusWindow { dir: FocusDir },
    CycleWindow,
    Quit,
}

impl View for Cmd {
    type V = Cmd<Seq<char>>;

    open spec fn view(&self) -> Cmd<Seq<char>> {
        match self {
            Cmd::EnterMode(m) => Cmd::EnterMode(*m),
            Cmd::StatusInfo(s) => Cmd::StatusInfo(s@),
            Cmd::StatusError(s) => Cmd::StatusError(s@),
            Cmd::ToastInfo(s) => Cmd::ToastInfo(s@),
            Cmd::ToastError(s) => Cmd::ToastError(s@),
            Cmd::SyncYank => Cmd::SyncYank,
            Cmd::OpenPrompt(k) => Cmd::OpenPrompt(*k),
            Cmd::OpenRenamePrompt => Cmd::OpenRenamePrompt,
            Cmd::SetSearch { pattern, forward } => Cmd::SetSearch { pattern: pattern@, forward: *forward },
            Cmd::JumpSearch { reverse } => Cmd::JumpSearch { reverse: *reverse },
            Cmd::SearchSelectMatch { reverse } => Cmd::SearchSelectMatch { reverse: *reverse },
            Cmd::SetLastFind(lf) => Cmd::SetLastFind(*lf),
            Cmd::Scroll(a) => Cmd::Scroll(*a),
            Cmd::Save { path, then_quit, force } => Cmd::Save {
                path: match path {
                    Some(p) => Some(p@),
                    None => None,
                },
                then_quit: *then_quit,
                force: *force,
            },
            Cmd::OpenPath(p) => Cmd::OpenPath(p@),
            Cmd::OpenLog => Cmd::OpenLog,
            Cmd::Reload => Cmd::Reload,
            Cmd::ReloadAll => Cmd::ReloadAll,
            Cmd::LspStatus => Cmd::LspStatus,
            Cmd::LspJump { method, label } => Cmd::LspJump { method: method@, label: label@ },
            Cmd::LspFindReferences => Cmd::LspFindReferences,
            Cmd::LspCodeAction => Cmd::LspCodeAction,
            Cmd::LspHover => Cmd::LspHover,
            Cmd::BufferCycle { forward } => Cmd::BufferCycle { forward: *forward },
            Cmd::BufferDelete { force } => Cmd::BufferDelete { force: *force },
            Cmd::BufferDeleteAll => Cmd::BufferDeleteAll,
            Cmd::NewScratchBuffer => Cmd::NewScratchBuffer,
            Cmd::StartJumpLabel => Cmd::StartJumpLabel,
            Cmd::SelectWholeBuffer => Cmd::SelectWholeBuffer,
            Cmd::SplitWindow { dir } => Cmd::SplitWindow { dir: *dir },
            Cmd::CloseWindow => Cmd::CloseWindow,
            Cmd::FocusWindow { dir } => Cmd::FocusWindow { dir: *dir },
            Cmd::CycleWindow => Cmd::CycleWindow,
            Cmd::Quit => Cmd::Quit,
        }
    }
}

/// The views of a list of commands.
pub open spec fn cmds_of(cmds: Seq<Cmd>) -> Seq<Cmd<Seq<char>>> {
    Seq::new(cmds.len(), |i: int| cmds[i]@)
}

/// Appends a command.
pub fn push_cmd(cmds: &mut Vec<Cmd>, c: Cmd)
    ensures
        cmds_of(final(cmds)@) == cmds_of(old(cmds)@).push(c@),
{
    cmds.push(c);
    proof {
        assert(cmds_of(cmds@) =~= cmds_of(old(cmds)@).push(c@));
    }
}

} // verus!
