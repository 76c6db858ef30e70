//! The command language: the tokens a key press resolves to, and the
//! expressions a finished token list stands for.
use vstd::prelude::*;
use crate::finder::FuzzyKind;
use crate::mode::Mode;

verus! {

/// What one key press means in the current parsing context. Tokens pile up
/// until they form a complete command.
#[derive(Debug, Clone, Copy, PartialEq, Eq, Structural)]
pub enum Token {
    /// One digit of a count prefix. Neighbouring digits form one number.
    Count(u32),
    /// An operator that waits for its target.
    Op(Operator),
    /// The operator's own key again: the operator applies to the line.
    SelfDouble(Operator),
    Motion(MotionKind),
    /// An action that fires by itself.
    Direct(DirectKind),
    /// `i` or `a` after an operator.
    Scope(Scope),
    /// The body of a text object, after a scope.
    Object(Object),
    /// The leader key.
    LeaderPrefix,
    /// `g`, which waits for a second key.
    GotoPrefix,
    /// `z`, which waits for a second key.
    ZPrefix,
    /// `f`/`F`/`t`/`T`, which wait for the character to look for.
    FindCharPrefix { forward: bool, till: bool },
    /// `r`, which waits for the replacement character.
    ReplaceCharPrefix,
}

#[derive(Debug, Clone, Copy, PartialEq, Eq, Structural)]
pub enum Operator {
    Delete,
    Yank,
    Change,
    Indent,
    Dedent,
}

#[derive(Debug, Clone, Copy, PartialEq, Eq, Structural)]
pub enum MotionKind {
    Left,
    Right,
    Up,
    Down,
    LineStart,
    LineEnd,
    LineFirstNonBlank,
    LineLastNonBlank,
    WordForward,
    WordBack,
    WordEnd,
    BigWordForward,
    BigWordBack,
    BigWordEnd,
    WordEndBack,
    BigWordEndBack,
    BracketMatch,
    SearchWordForward,
    SearchWordBack,
    FindChar { ch: char, forward: bool, till: bool },
    RepeatFind { reverse: bool },
    FileStart,
    FileEnd,
    ParagraphForward,
    ParagraphBack,
    ViewportTop,
    ViewportMiddle,
    ViewportBottom,
    HalfPageDown,
    HalfPageUp,
    PageDown,
    PageUp,
    SearchNext,
    SearchPrev,
}

#[derive(Debug, Clone, Copy, PartialEq, Eq, Structural)]
pub enum Scope {
    Inner,
    Around,
}

#[derive(Debug, Clone, Copy, PartialEq, Eq, Structural)]
pub enum Object {
    Word,
    Paragraph,
    DoubleQuote,
    SingleQuote,
    Paren,
    Brace,
    Bracket,
    Function,
    Class,
    Parameter,
}

/// The side a window command looks to.
#[derive(Debug, Clone, Copy, PartialEq, Eq, Structural)]
pub enum FocusDir {
    Left,
    Right,
    Up,
    Down,
}

/// How a window is split.
#[derive(Debug, Clone, Copy, PartialEq, Eq, Structural)]
pub enum SplitDir {
    Horizontal,
    Vertical,
}

#[derive(Debug, Clone, Copy, PartialEq, Eq, Structural)]
pub enum DirectKind {
    EnterMode(Mode),
    OpenPrompt(PromptKind),
    OpenLineBelow,
    OpenLineAbove,
    AppendAfterCursor,
    AppendAtLineEnd,
    InsertAtLineStart,
    ChangeToEol,
    DeleteToEol,
    YankLine,
    JoinLines,
    ToggleCase,
    SubstituteChar,
    SubstituteLine,
    ReplaceChar { ch: char },
    ViewportCenter,
    ViewportTopAtCursor,
    ViewportBottomAtCursor,
    Paste,
    Undo,
    Redo,
    DeleteCharUnderCursor,
    Quit,
    QuitForce,
    BufferNext,
    BufferPrev,
    BufferDelete,
    BufferDeleteForce,
    BufferDeleteAll,
    BufferList,
    NewScratchBuffer,
    SaveAndQuit,
    Save,
    SaveForce,
    Open,
    OpenLog,
    Reload,
    ReloadAll,
    LspStatus,
    GotoLine,
    GotoDefinition,
    GotoDeclaration,
    GotoImplementation,
    FindReferences,
    Rename,
    CodeAction,
    Hover,
    RepeatLast,
    SearchSelectNext { reverse: bool },
    SearchWordKeep { forward: bool },
    ClearSearch,
    Substitute,
    MultiCursorAddNext,
    MultiCursorPop,
    MultiCursorClear,
    JumpLabel,
    SelectWholeBuffer,
    ToggleComment,
    SplitWindowHorizontal,
    SplitWindowVertical,
    CloseWindow,
    FocusWindow { dir: FocusDir },
    CycleWindow,
}

#[derive(Debug, Clone, Copy, PartialEq, Eq, Structural)]
pub enum PromptKind {
    Command,
    Search { forward: bool },
    Fuzzy(FuzzyKind),
}

/// A complete command.
#[derive(Debug, Clone, Copy, PartialEq, Eq, Structural)]
pub enum Expr {
    /// A standalone action, possibly repeated.
    Direct { kind: DirectKind, count: u32 },
    /// A cursor movement with no operator around it.
    Motion(MotionExpr),
    /// An operator applied to a target. The outer count multiplies with any
    /// count of the motion.
    Op { op: Operator, target: Target, outer_count: u32 },
}

#[derive(Debug, Clone, Copy, PartialEq, Eq, Structural)]
pub struct MotionExpr {
    pub motion: MotionKind,
    pub count: u32,
}

#[derive(Debug, Clone, Copy, PartialEq, Eq, Structural)]
pub enum Target {
    Motion(MotionExpr),
    TextObject { scope: Scope, object: Object },
    /// The whole current line.
    LineWise,
    /// The next match of the active search.
    SearchMatch { reverse: bool },
}

/// The last `f`/`F`/`t`/`T` search, for `;` and `,`.
#[derive(Debug, Clone, Copy, PartialEq, Eq, Structural)]
pub struct LastFind {
    pub ch: char,
    pub forward: bool,
    pub till: bool,
}

/// One recorded key of an insert session.
#[derive(Debug, Clone, Copy, PartialEq, Eq, Structural)]
pub enum InsertKey {
    Char(char),
    Newline,
    Backspace,
}

/// What `.` replays.
#[derive(Debug)]
pub enum LastChange<K = Vec<InsertKey>> {
    Expr(Expr),
    Insert { trigger: Expr, keys: K },
}

impl View for LastChange {
    type V = LastChange<Seq<InsertKey>>;

    open spec fn view(&self) -> LastChange<Seq<InsertKey>> {
        match self {
            LastChange::Expr(e) => LastChange::Expr(*e),
            LastChange::Insert { trigger, keys } => LastChange::Insert { trigger: *trigger, keys: keys@ },
        }
    }
}

/// An insert session that is being recorded.
#[derive(Debug)]
pub struct InsertRecording<K = Vec<InsertKey>> {
    pub trigger: Expr,
    pub keys: K,
}

impl View for InsertRecording {
    type V = InsertRecording<Seq<InsertKey>>;

    open spec fn view(&self) -> InsertRecording<Seq<InsertKey>> {
        InsertRecording { trigger: self.trigger, keys: self.keys@ }
    }
}

/// What an expression is evaluated with: the argument text of a `:` command
/// and a count.
#[derive(Debug, Clone, Copy)]
pub struct Ctx<'a> {
    pub rest: &'a str,
    pub count: u32,
}

impl<'a> Ctx<'a> {
    pub fn with_rest(rest: &'a str) -> (r: Self)
        ensures
            r.rest@ == rest@,
            r.count == 1,
    {
        Ctx { rest, count: 1 }
    }
}

impl Default for Ctx<'_> {
    fn default() -> (r: Self)
        ensures
            r.rest@ == ""@,
            r.count == 1,
    {
        Ctx { rest: "", count: 1 }
    }
}

} // verus!
