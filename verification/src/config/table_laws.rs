//! What the fixed tables of keys, commands and names hold.
use vstd::prelude::*;
use crate::action::{DirectKind, MotionKind, Object, PromptKind, Scope, Token};
use crate::config::command::{command_named, command_table, law_names_are_distinct};
use crate::config::cursor::{shape_named, CursorShape, CursorShapes};
use crate::config::keymap::{goto_table, leader_table, object_table, op_pending_table, z_table};
use crate::config::keys::{add_modifier, key_named};
use crate::config::{subdir, Dirs};
use crate::finder::fuzzy::{FuzzyKind, IgnoreOpts};
use crate::keys::{KeyCode, KeyModifiers};
use crate::text::lower_text;

verus! {

/// What a key means behind an operator.
pub open spec fn after_operator(code: KeyCode) -> Option<Token> {
    match code {
        KeyCode::Char(c) => match c {
            'i' => Some(Token::Scope(Scope::Inner)),
            'a' => Some(Token::Scope(Scope::Around)),
            'w' => Some(Token::Motion(MotionKind::WordForward)),
            'b' => Some(Token::Motion(MotionKind::WordBack)),
            'e' => Some(Token::Motion(MotionKind::WordEnd)),
            'W' => Some(Token::Motion(MotionKind::BigWordForward)),
            'B' => Some(Token::Motion(MotionKind::BigWordBack)),
            'E' => Some(Token::Motion(MotionKind::BigWordEnd)),
            'f' => Some(Token::FindCharPrefix { forward: true, till: false }),
            'F' => Some(Token::FindCharPrefix { forward: false, till: false }),
            't' => Some(Token::FindCharPrefix { forward: true, till: true }),
            'T' => Some(Token::FindCharPrefix { forward: false, till: true }),
            ';' => Some(Token::Motion(MotionKind::RepeatFind { reverse: false })),
            ',' => Some(Token::Motion(MotionKind::RepeatFind { reverse: true })),
            '}' => Some(Token::Motion(MotionKind::ParagraphForward)),
            '{' => Some(Token::Motion(MotionKind::ParagraphBack)),
            '$' => Some(Token::Motion(MotionKind::LineEnd)),
            '0' => Some(Token::Motion(MotionKind::LineStart)),
            '^' => Some(Token::Motion(MotionKind::LineFirstNonBlank)),
            '%' => Some(Token::Motion(MotionKind::BracketMatch)),
            'h' => Some(Token::Motion(MotionKind::Left)),
            'l' => Some(Token::Motion(MotionKind::Right)),
            'j' => Some(Token::Motion(MotionKind::Down)),
            'k' => Some(Token::Motion(MotionKind::Up)),
            'G' => Some(Token::Motion(MotionKind::FileEnd)),
            _ => None,
        },
        KeyCode::End => Some(Token::Motion(MotionKind::LineEnd)),
        KeyCode::Home => Some(Token::Motion(MotionKind::LineStart)),
        KeyCode::Left => Some(Token::Motion(MotionKind::Left)),
        KeyCode::Right => Some(Token::Motion(MotionKind::Right)),
        KeyCode::Down => Some(Token::Motion(MotionKind::Down)),
        KeyCode::Up => Some(Token::Motion(MotionKind::Up)),
        _ => None,
    }
}

/// The keys behind an operator mean just that, each by its own name and by its others.
#[verifier::rlimit(60)]
pub proof fn law_operator_keys(i: int)
    requires
        0 <= i < op_pending_table().len(),
    ensures
        after_operator(op_pending_table()[i].key) == Some(op_pending_table()[i].token),
        forall|j: int|
            0 <= j < op_pending_table()[i].aliases.len() ==> after_operator(#[trigger] op_pending_table()[i].aliases[j]) == Some(
                op_pending_table()[i].token,
            ),
        op_pending_table().len() == 25,
{
    let t = op_pending_table();
    assert(t[0].key == KeyCode::Char('i') && after_operator(t[0].key) == Some(t[0].token) && t[0].aliases.len() == 0);
    assert(t[1].key == KeyCode::Char('a') && after_operator(t[1].key) == Some(t[1].token) && t[1].aliases.len() == 0);
    assert(t[2].key == KeyCode::Char('w') && after_operator(t[2].key) == Some(t[2].token) && t[2].aliases.len() == 0);
    assert(t[3].key == KeyCode::Char('b') && after_operator(t[3].key) == Some(t[3].token) && t[3].aliases.len() == 0);
    assert(t[4].key == KeyCode::Char('e') && after_operator(t[4].key) == Some(t[4].token) && t[4].aliases.len() == 0);
    assert(t[5].key == KeyCode::Char('W') && after_operator(t[5].key) == Some(t[5].token) && t[5].aliases.len() == 0);
    assert(t[6].key == KeyCode::Char('B') && after_operator(t[6].key) == Some(t[6].token) && t[6].aliases.len() == 0);
    assert(t[7].key == KeyCode::Char('E') && after_operator(t[7].key) == Some(t[7].token) && t[7].aliases.len() == 0);
    assert(t[8].key == KeyCode::Char('f') && after_operator(t[8].key) == Some(t[8].token) && t[8].aliases.len() == 0);
    assert(t[9].key == KeyCode::Char('F') && after_operator(t[9].key) == Some(t[9].token) && t[9].aliases.len() == 0);
    assert(t[10].key == KeyCode::Char('t') && after_operator(t[10].key) == Some(t[10].token) && t[10].aliases.len() == 0);
    assert(t[11].key == KeyCode::Char('T') && after_operator(t[11].key) == Some(t[11].token) && t[11].aliases.len() == 0);
    assert(t[12].key == KeyCode::Char(';') && after_operator(t[12].key) == Some(t[12].token) && t[12].aliases.len() == 0);
    assert(t[13].key == KeyCode::Char(',') && after_operator(t[13].key) == Some(t[13].token) && t[13].aliases.len() == 0);
    assert(t[14].key == KeyCode::Char('}') && after_operator(t[14].key) == Some(t[14].token) && t[14].aliases.len() == 0);
    assert(t[15].key == KeyCode::Char('{') && after_operator(t[15].key) == Some(t[15].token) && t[15].aliases.len() == 0);
    assert(t[16].key == KeyCode::Char('$') && after_operator(t[16].key) == Some(t[16].token) && t[16].aliases.len() == 1);
    assert(t[16].aliases[0] == KeyCode::End && after_operator(KeyCode::End) == Some(t[16].token));
    assert(t[17].key == KeyCode::Char('0') && after_operator(t[17].key) == Some(t[17].token) && t[17].aliases.len() == 1);
    assert(t[17].aliases[0] == KeyCode::Home && after_operator(KeyCode::Home) == Some(t[17].token));
    assert(t[18].key == KeyCode::Char('^') && after_operator(t[18].key) == Some(t[18].token) && t[18].aliases.len() == 0);
    assert(t[19].key == KeyCode::Char('%') && after_operator(t[19].key) == Some(t[19].token) && t[19].aliases.len() == 0);
    assert(t[20].key == KeyCode::Char('h') && after_operator(t[20].key) == Some(t[20].token) && t[20].aliases.len() == 1);
    assert(t[20].aliases[0] == KeyCode::Left && after_operator(KeyCode::Left) == Some(t[20].token));
    assert(t[21].key == KeyCode::Char('l') && after_operator(t[21].key) == Some(t[21].token) && t[21].aliases.len() == 1);
    assert(t[21].aliases[0] == KeyCode::Right && after_operator(KeyCode::Right) == Some(t[21].token));
    assert(t[22].key == KeyCode::Char('j') && after_operator(t[22].key) == Some(t[22].token) && t[22].aliases.len() == 1);
    assert(t[22].aliases[0] == KeyCode::Down && after_operator(KeyCode::Down) == Some(t[22].token));
    assert(t[23].key == KeyCode::Char('k') && after_operator(t[23].key) == Some(t[23].token) && t[23].aliases.len() == 1);
    assert(t[23].aliases[0] == KeyCode::Up && after_operator(KeyCode::Up) == Some(t[23].token));
    assert(t[24].key == KeyCode::Char('G') && after_operator(t[24].key) == Some(t[24].token) && t[24].aliases.len() == 0);
}

/// What a key means behind the goto prefix.
pub open spec fn after_goto(code: KeyCode) -> Option<Token> {
    match code {
        KeyCode::Char(c) => match c {
            'g' => Some(Token::GotoPrefix),
            '_' => Some(Token::Motion(MotionKind::LineLastNonBlank)),
            'e' => Some(Token::Motion(MotionKind::WordEndBack)),
            'E' => Some(Token::Motion(MotionKind::BigWordEndBack)),
            's' => Some(Token::Motion(MotionKind::LineFirstNonBlank)),
            'l' => Some(Token::Motion(MotionKind::LineEnd)),
            'c' => Some(Token::Motion(MotionKind::ViewportMiddle)),
            'b' => Some(Token::Motion(MotionKind::ViewportBottom)),
            'd' => Some(Token::Direct(DirectKind::GotoDefinition)),
            'D' => Some(Token::Direct(DirectKind::GotoDeclaration)),
            'i' => Some(Token::Direct(DirectKind::GotoImplementation)),
            'r' => Some(Token::Direct(DirectKind::FindReferences)),
            _ => None,
        },
        _ => None,
    }
}

/// The keys behind the goto prefix mean just that, each by its own name and by its others.
#[verifier::rlimit(60)]
pub proof fn law_goto_keys(i: int)
    requires
        0 <= i < goto_table().len(),
    ensures
        after_goto(goto_table()[i].key) == Some(goto_table()[i].token),
        forall|j: int|
            0 <= j < goto_table()[i].aliases.len() ==> after_goto(#[trigger] goto_table()[i].aliases[j]) == Some(
                goto_table()[i].token,
            ),
        goto_table().len() == 12,
{
    let t = goto_table();
    assert(t[0].key == KeyCode::Char('g') && after_goto(t[0].key) == Some(t[0].token) && t[0].aliases.len() == 0);
    assert(t[1].key == KeyCode::Char('_') && after_goto(t[1].key) == Some(t[1].token) && t[1].aliases.len() == 0);
    assert(t[2].key == KeyCode::Char('e') && after_goto(t[2].key) == Some(t[2].token) && t[2].aliases.len() == 0);
    assert(t[3].key == KeyCode::Char('E') && after_goto(t[3].key) == Some(t[3].token) && t[3].aliases.len() == 0);
    assert(t[4].key == KeyCode::Char('s') && after_goto(t[4].key) == Some(t[4].token) && t[4].aliases.len() == 0);
    assert(t[5].key == KeyCode::Char('l') && after_goto(t[5].key) == Some(t[5].token) && t[5].aliases.len() == 0);
    assert(t[6].key == KeyCode::Char('c') && after_goto(t[6].key) == Some(t[6].token) && t[6].aliases.len() == 0);
    assert(t[7].key == KeyCode::Char('b') && after_goto(t[7].key) == Some(t[7].token) && t[7].aliases.len() == 0);
    assert(t[8].key == KeyCode::Char('d') && after_goto(t[8].key) == Some(t[8].token) && t[8].aliases.len() == 0);
    assert(t[9].key == KeyCode::Char('D') && after_goto(t[9].key) == Some(t[9].token) && t[9].aliases.len() == 0);
    assert(t[10].key == KeyCode::Char('i') && after_goto(t[10].key) == Some(t[10].token) && t[10].aliases.len() == 0);
    assert(t[11].key == KeyCode::Char('r') && after_goto(t[11].key) == Some(t[11].token) && t[11].aliases.len() == 0);
}

/// What a key means behind the scroll prefix.
pub open spec fn after_z(code: KeyCode) -> Option<Token> {
    match code {
        KeyCode::Char(c) => match c {
            'z' => Some(Token::Direct(DirectKind::ViewportCenter)),
            't' => Some(Token::Direct(DirectKind::ViewportTopAtCursor)),
            'b' => Some(Token::Direct(DirectKind::ViewportBottomAtCursor)),
            _ => None,
        },
        _ => None,
    }
}

/// The keys behind the scroll prefix mean just that, each by its own name and by its others.
pub proof fn law_scroll_keys(i: int)
    requires
        0 <= i < z_table().len(),
    ensures
        after_z(z_table()[i].key) == Some(z_table()[i].token),
        forall|j: int|
            0 <= j < z_table()[i].aliases.len() ==> after_z(#[trigger] z_table()[i].aliases[j]) == Some(
                z_table()[i].token,
            ),
        z_table().len() == 3,
{
    let t = z_table();
    assert(t[0].key == KeyCode::Char('z') && after_z(t[0].key) == Some(t[0].token) && t[0].aliases.len() == 0);
    assert(t[1].key == KeyCode::Char('t') && after_z(t[1].key) == Some(t[1].token) && t[1].aliases.len() == 0);
    assert(t[2].key == KeyCode::Char('b') && after_z(t[2].key) == Some(t[2].token) && t[2].aliases.len() == 0);
}

/// What a key means by default behind the leader.
pub open spec fn after_leader(code: KeyCode) -> Option<Token> {
    match code {
        KeyCode::Char(c) => match c {
            'f' => Some(Token::Direct(DirectKind::OpenPrompt(PromptKind::Fuzzy(FuzzyKind::Files { ignore: IgnoreOpts { vcs: true, hidden: true } })))),
            'F' => Some(Token::Direct(DirectKind::OpenPrompt(PromptKind::Fuzzy(FuzzyKind::Files { ignore: IgnoreOpts { vcs: true, hidden: false } })))),
            'l' => Some(Token::Direct(DirectKind::OpenPrompt(PromptKind::Fuzzy(FuzzyKind::Lines)))),
            'b' => Some(Token::Direct(DirectKind::OpenPrompt(PromptKind::Fuzzy(FuzzyKind::Buffers)))),
            'r' => Some(Token::Direct(DirectKind::Rename)),
            'a' => Some(Token::Direct(DirectKind::CodeAction)),
            _ => None,
        },
        _ => None,
    }
}

/// The default keys behind the leader mean just that, each by its own name and by its others.
pub proof fn law_leader_keys(i: int)
    requires
        0 <= i < leader_table().len(),
    ensures
        after_leader(leader_table()[i].key) == Some(leader_table()[i].token),
        forall|j: int|
            0 <= j < leader_table()[i].aliases.len() ==> after_leader(#[trigger] leader_table()[i].aliases[j]) == Some(
                leader_table()[i].token,
            ),
        leader_table().len() == 6,
{
    let t = leader_table();
    assert(t[0].key == KeyCode::Char('f') && after_leader(t[0].key) == Some(t[0].token) && t[0].aliases.len() == 0);
    assert(t[1].key == KeyCode::Char('F') && after_leader(t[1].key) == Some(t[1].token) && t[1].aliases.len() == 0);
    assert(t[2].key == KeyCode::Char('l') && after_leader(t[2].key) == Some(t[2].token) && t[2].aliases.len() == 0);
    assert(t[3].key == KeyCode::Char('b') && after_leader(t[3].key) == Some(t[3].token) && t[3].aliases.len() == 0);
    assert(t[4].key == KeyCode::Char('r') && after_leader(t[4].key) == Some(t[4].token) && t[4].aliases.len() == 0);
    assert(t[5].key == KeyCode::Char('a') && after_leader(t[5].key) == Some(t[5].token) && t[5].aliases.len() == 0);
}

/// Which object a key names.
pub open spec fn object_key(code: KeyCode) -> Option<Token> {
    match code {
        KeyCode::Char(c) => match c {
            'w' => Some(Token::Object(Object::Word)),
            'p' => Some(Token::Object(Object::Paragraph)),
            '"' => Some(Token::Object(Object::DoubleQuote)),
            '\'' => Some(Token::Object(Object::SingleQuote)),
            '(' => Some(Token::Object(Object::Paren)),
            ')' => Some(Token::Object(Object::Paren)),
            'b' => Some(Token::Object(Object::Paren)),
            '{' => Some(Token::Object(Object::Brace)),
            '}' => Some(Token::Object(Object::Brace)),
            'B' => Some(Token::Object(Object::Brace)),
            '[' => Some(Token::Object(Object::Bracket)),
            ']' => Some(Token::Object(Object::Bracket)),
            'f' => Some(Token::Object(Object::Function)),
            'c' => Some(Token::Object(Object::Class)),
            'a' => Some(Token::Object(Object::Parameter)),
            _ => None,
        },
        _ => None,
    }
}

/// The keys of the objects mean just that, each by its own name and by its others.
#[verifier::rlimit(60)]
pub proof fn law_object_keys(i: int)
    requires
        0 <= i < object_table().len(),
    ensures
        object_key(object_table()[i].key) == Some(object_table()[i].token),
        forall|j: int|
            0 <= j < object_table()[i].aliases.len() ==> object_key(#[trigger] object_table()[i].aliases[j]) == Some(
                object_table()[i].token,
            ),
        object_table().len() == 10,
{
    let t = object_table();
    assert(t[0].key == KeyCode::Char('w') && object_key(t[0].key) == Some(t[0].token) && t[0].aliases.len() == 0);
    assert(t[1].key == KeyCode::Char('p') && object_key(t[1].key) == Some(t[1].token) && t[1].aliases.len() == 0);
    assert(t[2].key == KeyCode::Char('"') && object_key(t[2].key) == Some(t[2].token) && t[2].aliases.len() == 0);
    assert(t[3].key == KeyCode::Char('\'') && object_key(t[3].key) == Some(t[3].token) && t[3].aliases.len() == 0);
    assert(t[4].key == KeyCode::Char('(') && object_key(t[4].key) == Some(t[4].token) && t[4].aliases.len() == 2);
    assert(t[4].aliases[0] == KeyCode::Char(')') && object_key(KeyCode::Char(')')) == Some(t[4].token));
    assert(t[4].aliases[1] == KeyCode::Char('b') && object_key(KeyCode::Char('b')) == Some(t[4].token));
    assert(t[5].key == KeyCode::Char('{') && object_key(t[5].key) == Some(t[5].token) && t[5].aliases.len() == 2);
    assert(t[5].aliases[0] == KeyCode::Char('}') && object_key(KeyCode::Char('}')) == Some(t[5].token));
    assert(t[5].aliases[1] == KeyCode::Char('B') && object_key(KeyCode::Char('B')) == Some(t[5].token));
    assert(t[6].key == KeyCode::Char('[') && object_key(t[6].key) == Some(t[6].token) && t[6].aliases.len() == 1);
    assert(t[6].aliases[0] == KeyCode::Char(']') && object_key(KeyCode::Char(']')) == Some(t[6].token));
    assert(t[7].key == KeyCode::Char('f') && object_key(t[7].key) == Some(t[7].token) && t[7].aliases.len() == 0);
    assert(t[8].key == KeyCode::Char('c') && object_key(t[8].key) == Some(t[8].token) && t[8].aliases.len() == 0);
    assert(t[9].key == KeyCode::Char('a') && object_key(t[9].key) == Some(t[9].token) && t[9].aliases.len() == 0);
}

/// The commands go by these names.
#[verifier::rlimit(60)]
pub proof fn law_command_names()
    ensures
        command_named(command_table(), "q"@, 0) matches Some(b) && b.kind is Quit,
        command_named(command_table(), "quit"@, 0) matches Some(b) && b.kind is Quit,
        command_named(command_table(), "q!"@, 0) matches Some(b) && b.kind is QuitForce,
        command_named(command_table(), "quit!"@, 0) matches Some(b) && b.kind is QuitForce,
        command_named(command_table(), "w"@, 0) matches Some(b) && b.kind is Save,
        command_named(command_table(), "write"@, 0) matches Some(b) && b.kind is Save,
        command_named(command_table(), "w!"@, 0) matches Some(b) && b.kind is SaveForce,
        command_named(command_table(), "write!"@, 0) matches Some(b) && b.kind is SaveForce,
        command_named(command_table(), "wq"@, 0) matches Some(b) && b.kind is SaveAndQuit,
        command_named(command_table(), "x"@, 0) matches Some(b) && b.kind is SaveAndQuit,
        command_named(command_table(), "e"@, 0) matches Some(b) && b.kind is Open,
        command_named(command_table(), "edit"@, 0) matches Some(b) && b.kind is Open,
        command_named(command_table(), "bn"@, 0) matches Some(b) && b.kind is BufferNext,
        command_named(command_table(), "bnext"@, 0) matches Some(b) && b.kind is BufferNext,
        command_named(command_table(), "bp"@, 0) matches Some(b) && b.kind is BufferPrev,
        command_named(command_table(), "bprev"@, 0) matches Some(b) && b.kind is BufferPrev,
        command_named(command_table(), "bd"@, 0) matches Some(b) && b.kind is BufferDelete,
        command_named(command_table(), "bdelete"@, 0) matches Some(b) && b.kind is BufferDelete,
        command_named(command_table(), "bd!"@, 0) matches Some(b) && b.kind is BufferDeleteForce,
        command_named(command_table(), "bdelete!"@, 0) matches Some(b) && b.kind is BufferDeleteForce,
        command_named(command_table(), "bc"@, 0) matches Some(b) && b.kind is BufferDeleteForce,
        command_named(command_table(), "bc!"@, 0) matches Some(b) && b.kind is BufferDeleteForce,
        command_named(command_table(), "bca"@, 0) matches Some(b) && b.kind is BufferDeleteAll,
        command_named(command_table(), "bca!"@, 0) matches Some(b) && b.kind is BufferDeleteAll,
        command_named(command_table(), "bls"@, 0) matches Some(b) && b.kind is BufferList,
        command_named(command_table(), "buffers"@, 0) matches Some(b) && b.kind is BufferList,
        command_named(command_table(), "new"@, 0) matches Some(b) && b.kind is NewScratchBuffer,
        command_named(command_table(), "enew"@, 0) matches Some(b) && b.kind is NewScratchBuffer,
        command_named(command_table(), "goto"@, 0) matches Some(b) && b.kind is GotoLine,
        command_named(command_table(), "log"@, 0) matches Some(b) && b.kind is OpenLog,
        command_named(command_table(), "lsp"@, 0) matches Some(b) && b.kind is LspStatus,
        command_named(command_table(), "reload"@, 0) matches Some(b) && b.kind is Reload,
        command_named(command_table(), "e!"@, 0) matches Some(b) && b.kind is Reload,
        command_named(command_table(), "reload-all"@, 0) matches Some(b) && b.kind is ReloadAll,
        command_named(command_table(), "noh"@, 0) matches Some(b) && b.kind is ClearSearch,
        command_named(command_table(), "nohl"@, 0) matches Some(b) && b.kind is ClearSearch,
        command_named(command_table(), "nohlsearch"@, 0) matches Some(b) && b.kind is ClearSearch,
        command_named(command_table(), "split"@, 0) matches Some(b) && b.kind is SplitWindowHorizontal,
        command_named(command_table(), "sp"@, 0) matches Some(b) && b.kind is SplitWindowHorizontal,
        command_named(command_table(), "nh"@, 0) matches Some(b) && b.kind is SplitWindowHorizontal,
        command_named(command_table(), "vsplit"@, 0) matches Some(b) && b.kind is SplitWindowVertical,
        command_named(command_table(), "vsp"@, 0) matches Some(b) && b.kind is SplitWindowVertical,
        command_named(command_table(), "vs"@, 0) matches Some(b) && b.kind is SplitWindowVertical,
        command_named(command_table(), "nv"@, 0) matches Some(b) && b.kind is SplitWindowVertical,
        command_named(command_table(), "close"@, 0) matches Some(b) && b.kind is CloseWindow,
        command_named(command_table(), "clo"@, 0) matches Some(b) && b.kind is CloseWindow,
        command_named(command_table(), "only"@, 0) matches Some(b) && b.kind is CloseWindow,
        command_named(command_table(), "on"@, 0) matches Some(b) && b.kind is CloseWindow,
{
    let t = command_table();
    assert(t[0].called("q"@));
    law_names_are_distinct(0, "q"@);
    assert(t[0].aliases[0] == "quit"@);
    assert(t[0].called("quit"@));
    law_names_are_distinct(0, "quit"@);
    assert(t[1].called("q!"@));
    law_names_are_distinct(1, "q!"@);
    assert(t[1].aliases[0] == "quit!"@);
    assert(t[1].called("quit!"@));
    law_names_are_distinct(1, "quit!"@);
    assert(t[2].called("w"@));
    law_names_are_distinct(2, "w"@);
    assert(t[2].aliases[0] == "write"@);
    assert(t[2].called("write"@));
    law_names_are_distinct(2, "write"@);
    assert(t[3].called("w!"@));
    law_names_are_distinct(3, "w!"@);
    assert(t[3].aliases[0] == "write!"@);
    assert(t[3].called("write!"@));
    law_names_are_distinct(3, "write!"@);
    assert(t[4].called("wq"@));
    law_names_are_distinct(4, "wq"@);
    assert(t[4].aliases[0] == "x"@);
    assert(t[4].called("x"@));
    law_names_are_distinct(4, "x"@);
    assert(t[5].called("e"@));
    law_names_are_distinct(5, "e"@);
    assert(t[5].aliases[0] == "edit"@);
    assert(t[5].called("edit"@));
    law_names_are_distinct(5, "edit"@);
    assert(t[6].called("bn"@));
    law_names_are_distinct(6, "bn"@);
    assert(t[6].aliases[0] == "bnext"@);
    assert(t[6].called("bnext"@));
    law_names_are_distinct(6, "bnext"@);
    assert(t[7].called("bp"@));
    law_names_are_distinct(7, "bp"@);
    assert(t[7].aliases[0] == "bprev"@);
    assert(t[7].called("bprev"@));
    law_names_are_distinct(7, "bprev"@);
    assert(t[8].called("bd"@));
    law_names_are_distinct(8, "bd"@);
    assert(t[8].aliases[0] == "bdelete"@);
    assert(t[8].called("bdelete"@));
    law_names_are_distinct(8, "bdelete"@);
    assert(t[9].called("bd!"@));
    law_names_are_distinct(9, "bd!"@);
    assert(t[9].aliases[0] == "bdelete!"@);
    assert(t[9].called("bdelete!"@));
    law_names_are_distinct(9, "bdelete!"@);
    assert(t[9].aliases[1] == "bc"@);
    assert(t[9].called("bc"@));
    law_names_are_distinct(9, "bc"@);
    assert(t[9].aliases[2] == "bc!"@);
    assert(t[9].called("bc!"@));
    law_names_are_distinct(9, "bc!"@);
    assert(t[10].called("bca"@));
    law_names_are_distinct(10, "bca"@);
    assert(t[10].aliases[0] == "bca!"@);
    assert(t[10].called("bca!"@));
    law_names_are_distinct(10, "bca!"@);
    assert(t[11].called("bls"@));
    law_names_are_distinct(11, "bls"@);
    assert(t[11].aliases[0] == "buffers"@);
    assert(t[11].called("buffers"@));
    law_names_are_distinct(11, "buffers"@);
    assert(t[12].called("new"@));
    law_names_are_distinct(12, "new"@);
    assert(t[12].aliases[0] == "enew"@);
    assert(t[12].called("enew"@));
    law_names_are_distinct(12, "enew"@);
    assert(t[13].called("goto"@));
    law_names_are_distinct(13, "goto"@);
    assert(t[14].called("log"@));
    law_names_are_distinct(14, "log"@);
    assert(t[15].called("lsp"@));
    law_names_are_distinct(15, "lsp"@);
    assert(t[16].called("reload"@));
    law_names_are_distinct(16, "reload"@);
    assert(t[16].aliases[0] == "e!"@);
    assert(t[16].called("e!"@));
    law_names_are_distinct(16, "e!"@);
    assert(t[17].called("reload-all"@));
    law_names_are_distinct(17, "reload-all"@);
    assert(t[18].called("noh"@));
    law_names_are_distinct(18, "noh"@);
    assert(t[18].aliases[0] == "nohl"@);
    assert(t[18].called("nohl"@));
    law_names_are_distinct(18, "nohl"@);
    assert(t[18].aliases[1] == "nohlsearch"@);
    assert(t[18].called("nohlsearch"@));
    law_names_are_distinct(18, "nohlsearch"@);
    assert(t[19].called("split"@));
    law_names_are_distinct(19, "split"@);
    assert(t[19].aliases[0] == "sp"@);
    assert(t[19].called("sp"@));
    law_names_are_distinct(19, "sp"@);
    assert(t[19].aliases[1] == "nh"@);
    assert(t[19].called("nh"@));
    law_names_are_distinct(19, "nh"@);
    assert(t[20].called("vsplit"@));
    law_names_are_distinct(20, "vsplit"@);
    assert(t[20].aliases[0] == "vsp"@);
    assert(t[20].called("vsp"@));
    law_names_are_distinct(20, "vsp"@);
    assert(t[20].aliases[1] == "vs"@);
    assert(t[20].called("vs"@));
    law_names_are_distinct(20, "vs"@);
    assert(t[20].aliases[2] == "nv"@);
    assert(t[20].called("nv"@));
    law_names_are_distinct(20, "nv"@);
    assert(t[21].called("close"@));
    law_names_are_distinct(21, "close"@);
    assert(t[21].aliases[0] == "clo"@);
    assert(t[21].called("clo"@));
    law_names_are_distinct(21, "clo"@);
    assert(t[22].called("only"@));
    law_names_are_distinct(22, "only"@);
    assert(t[22].aliases[0] == "on"@);
    assert(t[22].called("on"@));
    law_names_are_distinct(22, "on"@);
}

/// The cursor is a block in the normal mode, a bar while typing and a line under
/// the character while selecting, unless the configuration says otherwise.
pub proof fn law_default_shapes()
    ensures
        CursorShapes::spec_default().normal is Block,
        CursorShapes::spec_default().insert is Bar,
        CursorShapes::spec_default().visual is Underbar,
        CursorShapes::spec_default().visual_line is Underbar,
        CursorShapes::spec_default().visual_block is Underbar,
{
}

/// The shapes by their names, and by the digit that a terminal knows them by.
pub proof fn law_shapes(name: Seq<char>)
    ensures
        lower_text(name) == "block"@ ==> shape_named(name) == Some(CursorShape::Block),
        CursorShape::Block.digit() == '2' as int,
        CursorShape::Underbar.digit() == '4' as int,
        CursorShape::Bar.digit() == '6' as int,
{
}

/// The configuration lies below the directory for that, else below the home
/// directory, else where the editor is.
pub proof fn law_configuration_directory(dirs: Dirs, name: Seq<char>)
    ensures
        dirs.xdg matches Some(x) ==> subdir(dirs, name) == x@ + "/"@ + "vorto"@ + "/"@ + name,
        dirs.xdg is None ==> (dirs.home matches Some(h) ==> subdir(dirs, name) == h@ + "/"@ + ".config/vorto"@ + "/"@
            + name),
        dirs.xdg is None && dirs.home is None ==> subdir(dirs, name) == name,
{
}

/// A modifier is added to those that are there.
pub proof fn law_modifiers(m: KeyModifiers)
    ensures
        add_modifier(m, "c"@) matches Some(n) && n == (KeyModifiers { control: true, ..m }),
        add_modifier(m, "ctrl"@) matches Some(n) && n == (KeyModifiers { control: true, ..m }),
{
}

/// A key by a name of one character is the key that types it.
pub proof fn law_single_keys(c: char)
    ensures
        key_named(seq![c]) == Some(KeyCode::Char(c)),
{
    reveal_strlit("space");
    reveal_strlit("esc");
    reveal_strlit("cr");
    reveal_strlit("enter");
    reveal_strlit("return");
    reveal_strlit("bs");
    reveal_strlit("backspace");
    reveal_strlit("tab");
    reveal_strlit("left");
    reveal_strlit("right");
    reveal_strlit("up");
    reveal_strlit("down");
    reveal_strlit("home");
    reveal_strlit("end");
    assert(seq![c].len() == 1);
}

} // verus!
