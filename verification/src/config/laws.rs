//! What the configuration promises: which key means what, which of several
//! bindings counts, and how settings lie over each other.
use vstd::prelude::*;
use crate::action::{DirectKind, MotionKind, Operator, PromptKind, Token};
use crate::config::editor::{EditorConfig, EditorToml};
use crate::config::keymap::{bound, ctrl, lookup, plain, vim_commands, vim_ctrl, vim_finds, vim_moves, BindingView, KeySig};
use crate::config::keys::{key_sequence, keys_from, BindError};
use crate::config::languages::{
    entry_named,
    extension_owner,
    language_of,
    merged_entry,
    merged_server,
    named_servers,
    server_at,
    server_named,
    EntryView,
    Language,
    LanguageError,
    LanguageView,
    LspConfig,
    LspTomlView,
    LspView,
};
use crate::config::{bind_effect, bound_after, Binding};
use crate::keys::{KeyCode, KeyModifiers};
use crate::mode::Mode;
use crate::strmap::{entry_at, StrMap};
use crate::text::text_of;

verus! {

/// A table of keys gives a key its own entry: the latest, where it has several.
pub proof fn law_bound_key(t: Seq<(KeySig, Token)>, sig: KeySig)
    ensures
        match bound(t, sig) {
            Some(token) => exists|i: int|
                0 <= i < t.len() && #[trigger] t[i] == (sig, token) && forall|j: int|
                    i < j < t.len() ==> (#[trigger] t[j]).0 != sig,
            None => forall|j: int| 0 <= j < t.len() ==> (#[trigger] t[j]).0 != sig,
        },
    decreases t.len(),
{
    if t.len() > 0 {
        let s = t.drop_last();
        law_bound_key(s, sig);
        if t.last().0 == sig {
            assert(t[t.len() - 1] == (sig, t.last().1));
        } else if let Some(token) = bound(s, sig) {
            let i = choose|i: int|
                0 <= i < s.len() && #[trigger] s[i] == (sig, token) && forall|j: int|
                    i < j < s.len() ==> (#[trigger] s[j]).0 != sig;
            assert(t[i] == (sig, token));
            assert forall|j: int| i < j < t.len() implies (#[trigger] t[j]).0 != sig by {
                if j < s.len() {
                    assert(s[j] == t[j]);
                }
            }
        } else {
            assert forall|j: int| 0 <= j < t.len() implies (#[trigger] t[j]).0 != sig by {
                if j < s.len() {
                    assert(s[j] == t[j]);
                }
            }
        }
    }
}

/// A fixed table gives a key the token of the first row that lists it.
pub proof fn law_looked_up_key(t: Seq<BindingView>, code: KeyCode, k: int)
    requires
        0 <= k <= t.len(),
    ensures
        match lookup(t, code, k) {
            Some(token) => exists|i: int|
                k <= i < t.len() && (#[trigger] t[i]).token == token && (t[i].key == code || t[i].aliases.contains(code))
                    && forall|j: int|
                    k <= j < i ==> (#[trigger] t[j]).key != code && !t[j].aliases.contains(code),
            None => forall|j: int| k <= j < t.len() ==> (#[trigger] t[j]).key != code && !t[j].aliases.contains(code),
        },
    decreases t.len() - k,
{
    if k < t.len() {
        if t[k].key == code || t[k].aliases.contains(code) {
            assert(t[k].token == t[k].token);
        } else {
            law_looked_up_key(t, code, k + 1);
            if let Some(token) = lookup(t, code, k + 1) {
                let i = choose|i: int|
                    k + 1 <= i < t.len() && (#[trigger] t[i]).token == token && (t[i].key == code || t[i].aliases.contains(
                        code,
                    )) && forall|j: int|
                        k + 1 <= j < i ==> (#[trigger] t[j]).key != code && !t[j].aliases.contains(code);
                assert(t[i].token == token);
            }
        }
    }
}

/// A key signature keeps its modifiers, but for a shift that the character
/// itself shows.
pub proof fn law_key_signature(code: KeyCode, m: KeyModifiers)
    ensures
        KeySig::of(code, m).code == code,
        KeySig::of(code, m).modifiers.control == m.control,
        KeySig::of(code, m).modifiers.alt == m.alt,
        KeySig::of(code, m).modifiers.shift == (m.shift && !(code is Char)),
{
}

/// What a key without modifiers means by default at the start of a command.
pub open spec fn meaning(code: KeyCode) -> Option<Token> {
    match code {
        KeyCode::Char(c) => match c {
            'h' => Some(Token::Motion(MotionKind::Left)),
            'l' => Some(Token::Motion(MotionKind::Right)),
            'j' => Some(Token::Motion(MotionKind::Down)),
            'k' => Some(Token::Motion(MotionKind::Up)),
            '$' => Some(Token::Motion(MotionKind::LineEnd)),
            '^' => Some(Token::Motion(MotionKind::LineFirstNonBlank)),
            'w' => Some(Token::Motion(MotionKind::WordForward)),
            'b' => Some(Token::Motion(MotionKind::WordBack)),
            'e' => Some(Token::Motion(MotionKind::WordEnd)),
            'W' => Some(Token::Motion(MotionKind::BigWordForward)),
            'B' => Some(Token::Motion(MotionKind::BigWordBack)),
            'E' => Some(Token::Motion(MotionKind::BigWordEnd)),
            '{' => Some(Token::Motion(MotionKind::ParagraphBack)),
            '}' => Some(Token::Motion(MotionKind::ParagraphForward)),
            'G' => Some(Token::Motion(MotionKind::FileEnd)),
            'H' => Some(Token::Motion(MotionKind::ViewportTop)),
            'M' => Some(Token::Motion(MotionKind::ViewportMiddle)),
            'L' => Some(Token::Motion(MotionKind::ViewportBottom)),
            '%' => Some(Token::Motion(MotionKind::BracketMatch)),
            '*' => Some(Token::Motion(MotionKind::SearchWordForward)),
            '#' => Some(Token::Motion(MotionKind::SearchWordBack)),
            'n' => Some(Token::Motion(MotionKind::SearchNext)),
            'N' => Some(Token::Motion(MotionKind::SearchPrev)),
            'f' => Some(Token::FindCharPrefix { forward: true, till: false }),
            'F' => Some(Token::FindCharPrefix { forward: false, till: false }),
            't' => Some(Token::FindCharPrefix { forward: true, till: true }),
            'T' => Some(Token::FindCharPrefix { forward: false, till: true }),
            ';' => Some(Token::Motion(MotionKind::RepeatFind { reverse: false })),
            ',' => Some(Token::Motion(MotionKind::RepeatFind { reverse: true })),
            'd' => Some(Token::Op(Operator::Delete)),
            'y' => Some(Token::Op(Operator::Yank)),
            'c' => Some(Token::Op(Operator::Change)),
            'i' => Some(Token::Direct(DirectKind::EnterMode(Mode::Insert))),
            'I' => Some(Token::Direct(DirectKind::InsertAtLineStart)),
            'a' => Some(Token::Direct(DirectKind::AppendAfterCursor)),
            'A' => Some(Token::Direct(DirectKind::AppendAtLineEnd)),
            'v' => Some(Token::Direct(DirectKind::EnterMode(Mode::Visual))),
            'V' => Some(Token::Direct(DirectKind::EnterMode(Mode::VisualLine))),
            'o' => Some(Token::Direct(DirectKind::OpenLineBelow)),
            'O' => Some(Token::Direct(DirectKind::OpenLineAbove)),
            'x' => Some(Token::Direct(DirectKind::DeleteCharUnderCursor)),
            'p' => Some(Token::Direct(DirectKind::Paste)),
            'u' => Some(Token::Direct(DirectKind::Undo)),
            'C' => Some(Token::Direct(DirectKind::ChangeToEol)),
            'D' => Some(Token::Direct(DirectKind::DeleteToEol)),
            'Y' => Some(Token::Direct(DirectKind::YankLine)),
            'J' => Some(Token::Direct(DirectKind::JoinLines)),
            '~' => Some(Token::Direct(DirectKind::ToggleCase)),
            's' => Some(Token::Direct(DirectKind::SubstituteChar)),
            'S' => Some(Token::Direct(DirectKind::SubstituteLine)),
            'r' => Some(Token::ReplaceCharPrefix),
            'z' => Some(Token::ZPrefix),
            ':' => Some(Token::Direct(DirectKind::OpenPrompt(PromptKind::Command))),
            '/' => Some(Token::Direct(DirectKind::OpenPrompt(PromptKind::Search { forward: true }))),
            '?' => Some(Token::Direct(DirectKind::OpenPrompt(PromptKind::Search { forward: false }))),
            'g' => Some(Token::GotoPrefix),
            ' ' => Some(Token::LeaderPrefix),
            _ => None,
        },
        KeyCode::Left => Some(Token::Motion(MotionKind::Left)),
        KeyCode::Right => Some(Token::Motion(MotionKind::Right)),
        KeyCode::Down => Some(Token::Motion(MotionKind::Down)),
        KeyCode::Up => Some(Token::Motion(MotionKind::Up)),
        KeyCode::End => Some(Token::Motion(MotionKind::LineEnd)),
        KeyCode::Home => Some(Token::Motion(MotionKind::LineStart)),
        _ => None,
    }
}

/// Every default entry of the movements gives its key that meaning.
#[verifier::rlimit(60)]
pub proof fn law_default_moves(i: int)
    requires
        0 <= i < vim_moves().len(),
    ensures
        exists|code: KeyCode|
            #![trigger plain(code)]
            vim_moves()[i].0 == plain(code) && meaning(code) == Some(vim_moves()[i].1),
        vim_moves().len() == 29,
{
    let t = vim_moves();
    assert(t[0].0 == plain(KeyCode::Char('h')) && meaning(KeyCode::Char('h')) == Some(t[0].1));
    assert(t[1].0 == plain(KeyCode::Left) && meaning(KeyCode::Left) == Some(t[1].1));
    assert(t[2].0 == plain(KeyCode::Char('l')) && meaning(KeyCode::Char('l')) == Some(t[2].1));
    assert(t[3].0 == plain(KeyCode::Right) && meaning(KeyCode::Right) == Some(t[3].1));
    assert(t[4].0 == plain(KeyCode::Char('j')) && meaning(KeyCode::Char('j')) == Some(t[4].1));
    assert(t[5].0 == plain(KeyCode::Down) && meaning(KeyCode::Down) == Some(t[5].1));
    assert(t[6].0 == plain(KeyCode::Char('k')) && meaning(KeyCode::Char('k')) == Some(t[6].1));
    assert(t[7].0 == plain(KeyCode::Up) && meaning(KeyCode::Up) == Some(t[7].1));
    assert(t[8].0 == plain(KeyCode::Char('$')) && meaning(KeyCode::Char('$')) == Some(t[8].1));
    assert(t[9].0 == plain(KeyCode::End) && meaning(KeyCode::End) == Some(t[9].1));
    assert(t[10].0 == plain(KeyCode::Home) && meaning(KeyCode::Home) == Some(t[10].1));
    assert(t[11].0 == plain(KeyCode::Char('^')) && meaning(KeyCode::Char('^')) == Some(t[11].1));
    assert(t[12].0 == plain(KeyCode::Char('w')) && meaning(KeyCode::Char('w')) == Some(t[12].1));
    assert(t[13].0 == plain(KeyCode::Char('b')) && meaning(KeyCode::Char('b')) == Some(t[13].1));
    assert(t[14].0 == plain(KeyCode::Char('e')) && meaning(KeyCode::Char('e')) == Some(t[14].1));
    assert(t[15].0 == plain(KeyCode::Char('W')) && meaning(KeyCode::Char('W')) == Some(t[15].1));
    assert(t[16].0 == plain(KeyCode::Char('B')) && meaning(KeyCode::Char('B')) == Some(t[16].1));
    assert(t[17].0 == plain(KeyCode::Char('E')) && meaning(KeyCode::Char('E')) == Some(t[17].1));
    assert(t[18].0 == plain(KeyCode::Char('{')) && meaning(KeyCode::Char('{')) == Some(t[18].1));
    assert(t[19].0 == plain(KeyCode::Char('}')) && meaning(KeyCode::Char('}')) == Some(t[19].1));
    assert(t[20].0 == plain(KeyCode::Char('G')) && meaning(KeyCode::Char('G')) == Some(t[20].1));
    assert(t[21].0 == plain(KeyCode::Char('H')) && meaning(KeyCode::Char('H')) == Some(t[21].1));
    assert(t[22].0 == plain(KeyCode::Char('M')) && meaning(KeyCode::Char('M')) == Some(t[22].1));
    assert(t[23].0 == plain(KeyCode::Char('L')) && meaning(KeyCode::Char('L')) == Some(t[23].1));
    assert(t[24].0 == plain(KeyCode::Char('%')) && meaning(KeyCode::Char('%')) == Some(t[24].1));
    assert(t[25].0 == plain(KeyCode::Char('*')) && meaning(KeyCode::Char('*')) == Some(t[25].1));
    assert(t[26].0 == plain(KeyCode::Char('#')) && meaning(KeyCode::Char('#')) == Some(t[26].1));
    assert(t[27].0 == plain(KeyCode::Char('n')) && meaning(KeyCode::Char('n')) == Some(t[27].1));
    assert(t[28].0 == plain(KeyCode::Char('N')) && meaning(KeyCode::Char('N')) == Some(t[28].1));
}

/// Every default entry of the character searches and operators gives its key that meaning.
#[verifier::rlimit(60)]
pub proof fn law_default_finds(i: int)
    requires
        0 <= i < vim_finds().len(),
    ensures
        exists|code: KeyCode|
            #![trigger plain(code)]
            vim_finds()[i].0 == plain(code) && meaning(code) == Some(vim_finds()[i].1),
        vim_finds().len() == 9,
{
    let t = vim_finds();
    assert(t[0].0 == plain(KeyCode::Char('f')) && meaning(KeyCode::Char('f')) == Some(t[0].1));
    assert(t[1].0 == plain(KeyCode::Char('F')) && meaning(KeyCode::Char('F')) == Some(t[1].1));
    assert(t[2].0 == plain(KeyCode::Char('t')) && meaning(KeyCode::Char('t')) == Some(t[2].1));
    assert(t[3].0 == plain(KeyCode::Char('T')) && meaning(KeyCode::Char('T')) == Some(t[3].1));
    assert(t[4].0 == plain(KeyCode::Char(';')) && meaning(KeyCode::Char(';')) == Some(t[4].1));
    assert(t[5].0 == plain(KeyCode::Char(',')) && meaning(KeyCode::Char(',')) == Some(t[5].1));
    assert(t[6].0 == plain(KeyCode::Char('d')) && meaning(KeyCode::Char('d')) == Some(t[6].1));
    assert(t[7].0 == plain(KeyCode::Char('y')) && meaning(KeyCode::Char('y')) == Some(t[7].1));
    assert(t[8].0 == plain(KeyCode::Char('c')) && meaning(KeyCode::Char('c')) == Some(t[8].1));
}

/// Every default entry of the commands gives its key that meaning.
#[verifier::rlimit(60)]
pub proof fn law_default_commands(i: int)
    requires
        0 <= i < vim_commands().len(),
    ensures
        exists|code: KeyCode|
            #![trigger plain(code)]
            vim_commands()[i].0 == plain(code) && meaning(code) == Some(vim_commands()[i].1),
        vim_commands().len() == 25,
{
    let t = vim_commands();
    assert(t[0].0 == plain(KeyCode::Char('i')) && meaning(KeyCode::Char('i')) == Some(t[0].1));
    assert(t[1].0 == plain(KeyCode::Char('I')) && meaning(KeyCode::Char('I')) == Some(t[1].1));
    assert(t[2].0 == plain(KeyCode::Char('a')) && meaning(KeyCode::Char('a')) == Some(t[2].1));
    assert(t[3].0 == plain(KeyCode::Char('A')) && meaning(KeyCode::Char('A')) == Some(t[3].1));
    assert(t[4].0 == plain(KeyCode::Char('v')) && meaning(KeyCode::Char('v')) == Some(t[4].1));
    assert(t[5].0 == plain(KeyCode::Char('V')) && meaning(KeyCode::Char('V')) == Some(t[5].1));
    assert(t[6].0 == plain(KeyCode::Char('o')) && meaning(KeyCode::Char('o')) == Some(t[6].1));
    assert(t[7].0 == plain(KeyCode::Char('O')) && meaning(KeyCode::Char('O')) == Some(t[7].1));
    assert(t[8].0 == plain(KeyCode::Char('x')) && meaning(KeyCode::Char('x')) == Some(t[8].1));
    assert(t[9].0 == plain(KeyCode::Char('p')) && meaning(KeyCode::Char('p')) == Some(t[9].1));
    assert(t[10].0 == plain(KeyCode::Char('u')) && meaning(KeyCode::Char('u')) == Some(t[10].1));
    assert(t[11].0 == plain(KeyCode::Char('C')) && meaning(KeyCode::Char('C')) == Some(t[11].1));
    assert(t[12].0 == plain(KeyCode::Char('D')) && meaning(KeyCode::Char('D')) == Some(t[12].1));
    assert(t[13].0 == plain(KeyCode::Char('Y')) && meaning(KeyCode::Char('Y')) == Some(t[13].1));
    assert(t[14].0 == plain(KeyCode::Char('J')) && meaning(KeyCode::Char('J')) == Some(t[14].1));
    assert(t[15].0 == plain(KeyCode::Char('~')) && meaning(KeyCode::Char('~')) == Some(t[15].1));
    assert(t[16].0 == plain(KeyCode::Char('s')) && meaning(KeyCode::Char('s')) == Some(t[16].1));
    assert(t[17].0 == plain(KeyCode::Char('S')) && meaning(KeyCode::Char('S')) == Some(t[17].1));
    assert(t[18].0 == plain(KeyCode::Char('r')) && meaning(KeyCode::Char('r')) == Some(t[18].1));
    assert(t[19].0 == plain(KeyCode::Char('z')) && meaning(KeyCode::Char('z')) == Some(t[19].1));
    assert(t[20].0 == plain(KeyCode::Char(':')) && meaning(KeyCode::Char(':')) == Some(t[20].1));
    assert(t[21].0 == plain(KeyCode::Char('/')) && meaning(KeyCode::Char('/')) == Some(t[21].1));
    assert(t[22].0 == plain(KeyCode::Char('?')) && meaning(KeyCode::Char('?')) == Some(t[22].1));
    assert(t[23].0 == plain(KeyCode::Char('g')) && meaning(KeyCode::Char('g')) == Some(t[23].1));
    assert(t[24].0 == plain(KeyCode::Char(' ')) && meaning(KeyCode::Char(' ')) == Some(t[24].1));
}

/// The default keys with Control: half pages and pages, and the block mode.
pub proof fn law_default_control_keys(i: int)
    requires
        0 <= i < vim_ctrl().len(),
    ensures
        exists|c: char|
            #![trigger ctrl(c)]
            vim_ctrl()[i].0 == ctrl(c) && vim_ctrl()[i].1 == match c {
                'v' => Token::Direct(DirectKind::EnterMode(Mode::VisualBlock)),
                'd' => Token::Motion(MotionKind::HalfPageDown),
                'u' => Token::Motion(MotionKind::HalfPageUp),
                'f' => Token::Motion(MotionKind::PageDown),
                _ => Token::Motion(MotionKind::PageUp),
            } && (c == 'v' || c == 'd' || c == 'u' || c == 'f' || c == 'b'),
        vim_ctrl().len() == 5,
{
    let t = vim_ctrl();
    assert(t[0].0 == ctrl('v'));
    assert(t[1].0 == ctrl('d'));
    assert(t[2].0 == ctrl('u'));
    assert(t[3].0 == ctrl('f'));
    assert(t[4].0 == ctrl('b'));
}

/// Of the user's bindings the last one that binds a key counts; a key that none
/// of them binds keeps what it had. One that cannot be read binds nothing.
pub proof fn law_last_binding_counts(binds: Seq<Binding>, b: Binding, leader: bool, sig: KeySig, before: Option<Token>)
    ensures
        ({
            let n = binds.len() as int;
            let after = bound_after(binds.push(b), n + 1, leader, sig, before);
            match bind_effect(b.keys@, b.action@) {
                Ok((l, s, t)) => after == if l == leader && s == sig {
                    Some(t)
                } else {
                    bound_after(binds, n, leader, sig, before)
                },
                Err(_) => after == bound_after(binds, n, leader, sig, before),
            }
        }),
        bound_after(Seq::empty(), 0, leader, sig, before) == before,
{
    lemma_bound_take(binds, b, binds.len() as int, leader, sig, before);
}

proof fn lemma_bound_take(
    binds: Seq<Binding>,
    b: Binding,
    k: int,
    leader: bool,
    sig: KeySig,
    before: Option<Token>,
)
    requires
        0 <= k <= binds.len(),
    ensures
        bound_after(binds.push(b), k, leader, sig, before) == bound_after(binds, k, leader, sig, before),
    decreases k,
{
    if k > 0 {
        lemma_bound_take(binds, b, k - 1, leader, sig, before);
    }
}

/// Keys that are written as they are are read one by one, each character as the
/// key that types it; nothing at all is no sequence.
pub proof fn law_plain_keys(s: Seq<char>, i: int, acc: Seq<KeySig>, c: char)
    requires
        0 <= i <= s.len(),
        i < s.len() ==> s[i] == c,
    ensures
        i < s.len() && c != '<' ==> keys_from(s, i, acc) == keys_from(s, i + 1, acc.push(plain(KeyCode::Char(c)))),
        i == s.len() && acc.len() > 0 ==> keys_from(s, i, acc) == Ok::<Seq<KeySig>, BindError<Seq<char>>>(acc),
        i == s.len() && acc.len() == 0 ==> keys_from(s, i, acc) is Err,
        key_sequence(s) == keys_from(s, 0, Seq::empty()),
{
}

/// A binding of one key binds it at the start of a command; one of two keys
/// binds the second behind the leader, which has to be the first; longer ones
/// are refused.
pub proof fn law_lengths_of_bindings(keys: Seq<char>, action: Seq<char>, sigs: Seq<KeySig>, token: Token)
    requires
        key_sequence(keys) == Ok::<Seq<KeySig>, BindError<Seq<char>>>(sigs),
        crate::config::keys::action_token(action) == Some(token),
    ensures
        sigs.len() == 1 ==> bind_effect(keys, action) == Ok::<(bool, KeySig, Token), BindError<Seq<char>>>(
            (false, sigs[0], token),
        ),
        sigs.len() == 2 && sigs[0] == plain(KeyCode::Char(' ')) ==> bind_effect(keys, action) == Ok::<
            (bool, KeySig, Token),
            BindError<Seq<char>>,
        >((true, sigs[1], token)),
        sigs.len() == 2 && sigs[0].code != KeyCode::Char(' ') ==> (bind_effect(keys, action) matches Err(e)
            && e is OnlyLeaderPairs),
        sigs.len() > 2 ==> (bind_effect(keys, action) matches Err(e) && e is TooLong),
{
}

/// A setting of the user's lies over the one that was there; what is not set
/// stays.
pub proof fn law_settings_lie_over(base: EditorConfig, user: EditorToml)
    ensures
        ({
            let e = base.overlaid(user);
            &&& user.indent_width matches Some(n) ==> e.indent_width == n
            &&& user.indent_width is None ==> e.indent_width == base.indent_width
            &&& user.tab_width matches Some(n) ==> e.tab_width == n
            &&& user.tab_width is None ==> e.tab_width == base.tab_width
            &&& user.use_tabs matches Some(b) ==> e.use_tabs == b
            &&& user.use_tabs is None ==> e.use_tabs == base.use_tabs
            &&& user.show_whitespace matches Some(b) ==> e.show_whitespace == b
            &&& user.show_whitespace is None ==> e.show_whitespace == base.show_whitespace
            &&& user.format_on_save matches Some(b) ==> e.format_on_save == b
            &&& user.format_on_save is None ==> e.format_on_save == base.format_on_save
            &&& user.indent_guides matches Some(b) ==> e.indent_guides == b
            &&& user.indent_guides is None ==> e.indent_guides == base.indent_guides
            &&& user.indent_guides_skip_levels matches Some(n) ==> e.indent_guides_skip_levels == n
            &&& user.indent_guides_skip_levels is None ==> e.indent_guides_skip_levels == base.indent_guides_skip_levels
            &&& user.indent_guide_style matches Some(s) ==> e.indent_guide_style == s
            &&& user.indent_guide_style is None ==> e.indent_guide_style == base.indent_guide_style
        }),
{
}

/// The indentation of a buffer is what its language sets, else what is set for
/// all.
pub proof fn law_language_settings(desk: crate::app::Desk)
    ensures
        ({
            let s = desk.indent();
            match desk.language() {
                Some(l) => {
                    &&& l.editor.indent_width matches Some(n) ==> s.width == n
                    &&& l.editor.indent_width is None ==> s.width == desk.config.editor.indent_width
                    &&& l.editor.use_tabs matches Some(b) ==> s.use_tabs == b
                    &&& l.editor.use_tabs is None ==> s.use_tabs == desk.config.editor.use_tabs
                },
                None => s.width == desk.config.editor.indent_width && s.use_tabs == desk.config.editor.use_tabs,
            }
        }),
        desk.formatting().tab_size == desk.indent().width,
        desk.formatting().insert_spaces == !desk.indent().use_tabs,
{
}

/// An entry of the user's lies over the built-in one of its name; a new one
/// stands alone, and without one the built-in stays.
pub proof fn law_entries_merge(user: EntryView, base: EntryView)
    ensures
        merged_entry(None, Some(base)) == Some(base),
        merged_entry(Some(user), None) == Some(user),
        merged_entry(None, None) is None,
        merged_entry(Some(user), Some(base)) matches Some(e) && (user.grammar is Some ==> e.grammar == user.grammar) && (
        user.grammar is None ==> e.grammar == base.grammar) && (user.extensions is Some ==> e.extensions
            == user.extensions) && (user.extensions is None ==> e.extensions == base.extensions) && (
        user.comment_token is Some ==> e.comment_token == user.comment_token) && (user.comment_token is None
            ==> e.comment_token == base.comment_token) && (user.lsp is Some ==> e.lsp == user.lsp) && (user.lsp is None
            ==> e.lsp == base.lsp) && (user.formatter is Some ==> e.formatter == user.formatter) && (
        user.formatter is None ==> e.formatter == base.formatter) && (user.query_dir is Some ==> e.query_dir
            == user.query_dir) && (user.query_dir is None ==> e.query_dir == base.query_dir) && (
        user.grammar_dir is Some ==> e.grammar_dir == user.grammar_dir) && (user.grammar_dir is None ==> e.grammar_dir
            == base.grammar_dir),
{
}

/// The same for servers; a new one needs a command.
pub proof fn law_servers_merge(name: Seq<char>, user: LspTomlView, base: LspView)
    ensures
        merged_server(name, None, Some(base)) matches Ok(Some(b)) && b == base,
        merged_server(name, None, None) matches Ok(o) && o is None,
        user.command is None ==> merged_server(name, Some(user), None) is Err,
        user.command matches Some(c) ==> (merged_server(name, Some(user), None) matches Ok(Some(s)) && s.name == name
            && s.command == c && (user.args matches Some(a) ==> s.args == a) && (user.args is None ==> s.args.len()
            == 0)),
        merged_server(name, Some(user), Some(base)) matches Ok(Some(s)) && s.name == base.name && (
        user.command matches Some(c) ==> s.command == c) && (user.command is None ==> s.command == base.command) && (
        user.args matches Some(a) ==> s.args == a) && (user.args is None ==> s.args == base.args) && (
        user.root_markers matches Some(r) ==> s.root_markers == r) && (user.root_markers is None ==> s.root_markers
            == base.root_markers),
{
}

/// A server or a language is found by its own name.
pub proof fn law_found_by_name(t: Seq<LspView>, s: LspView, u: Seq<(Seq<char>, EntryView)>, e: EntryView, name: Seq<char>)
    ensures
        server_named(t.push(s), s.name) == Some(s),
        name != s.name ==> server_named(t.push(s), name) == server_named(t, name),
        server_named(Seq::empty(), name) is None,
        entry_named(u.push((name, e)), name) == Some(e),
        s.name != name ==> entry_named(u.push((name, e)), s.name) == entry_named(u, s.name),
        entry_named(Seq::empty(), name) is None,
{
    assert(t.push(s).drop_last() =~= t);
    assert(u.push((name, e)).drop_last() =~= u);
}

/// A language has the servers that its entry names, in that order; its grammar is
/// the one of its own name unless another is set; and a formatter needs a
/// command.
pub proof fn law_language_of_an_entry(name: Seq<char>, c: EntryView, table: StrMap<LspConfig>, l: LanguageView)
    requires
        language_of(name, c, table) == Ok::<LanguageView, LanguageError<Seq<char>>>(l),
    ensures
        l.name == name,
        c.grammar matches Some(g) ==> l.grammar == g,
        c.grammar is None ==> l.grammar == name,
        c.extensions matches Some(e) ==> l.extensions == e,
        c.extensions is None ==> l.extensions.len() == 0,
        l.comment_token == c.comment_token,
        l.editor == c.editor,
        c.formatter is None ==> l.formatter is None,
        c.formatter matches Some(f) ==> f.command is Some && l.formatter is Some && (l.formatter->0).command
            == f.command->0,
        c.lsp matches Some(names) ==> l.lsp.len() == names.len() && forall|i: int|
            0 <= i < names.len() ==> server_at(table, names[i]) == Some(#[trigger] l.lsp[i]),
        c.lsp is None ==> l.lsp.len() == 0,
{
    let names = match c.lsp {
        Some(n) => n,
        None => Seq::empty(),
    };
    lemma_named(name, names, table, names.len() as int);
}

proof fn lemma_named(language: Seq<char>, names: Seq<Seq<char>>, table: StrMap<LspConfig>, k: int)
    requires
        0 <= k <= names.len(),
    ensures
        named_servers(language, names, table, k) matches Ok(s) ==> s.len() == k && forall|i: int|
            0 <= i < k ==> server_at(table, names[i]) == Some(#[trigger] s[i]),
    decreases k,
{
    if k > 0 {
        lemma_named(language, names, table, k - 1);
    }
}

/// A map of names gives a name the value of its latest entry.
pub proof fn law_map_of_names<V>(s: Seq<(String, V)>, x: (String, V), key: Seq<char>)
    ensures
        entry_at(s.push(x), x.0@) == Some(x.1),
        key != x.0@ ==> entry_at(s.push(x), key) == entry_at(s, key),
        entry_at(Seq::<(String, V)>::empty(), key) is None,
{
    assert(s.push(x).drop_last() =~= s);
}

/// An extension leads to the latest language that lists it.
pub proof fn law_owner_of_an_extension(langs: Seq<(String, Language)>, l: (String, Language), ext: Seq<char>)
    ensures
        text_of(l.1.extensions@).contains(ext) ==> extension_owner(langs.push(l), ext, langs.len() as int + 1) == Some(
            l.0@,
        ),
        !text_of(l.1.extensions@).contains(ext) ==> extension_owner(langs.push(l), ext, langs.len() as int + 1)
            == extension_owner(langs, ext, langs.len() as int),
{
    lemma_owner_take(langs, l, ext, langs.len() as int);
}

proof fn lemma_owner_take(langs: Seq<(String, Language)>, l: (String, Language), ext: Seq<char>, k: int)
    requires
        0 <= k <= langs.len(),
    ensures
        extension_owner(langs.push(l), ext, k) == extension_owner(langs, ext, k),
    decreases k,
{
    if k > 0 {
        lemma_owner_take(langs, l, ext, k - 1);
    }
}

} // verus!
