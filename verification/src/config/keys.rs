//! The notation for keys and actions in the configuration.
//!
//! A key is written as its character, or by a name in angle brackets with
//! modifiers in front: `a`, `G`, `<C-s>`, `<space>`, `<esc>`.
use vstd::prelude::*;
use crate::action::{DirectKind, MotionKind, Operator, PromptKind, Token};
use crate::config::keymap::KeySig;
use crate::editor::motion::find::first_at;
use crate::finder::{FuzzyKind, IgnoreOpts};
use crate::keys::{KeyCode, KeyModifiers};
use crate::mode::Mode;
use crate::text::{
    char_rows, chars_of, lower_text, pieces, push_str, slice_chars, spells, split_chars, string_of, to_lower_text,
};

verus! {

/// Why a binding cannot be used.
#[derive(Debug)]
pub enum BindError<S = String> {
    /// A `<` without its `>`, in this notation.
    Unterminated(S),
    /// No key at all.
    EmptySequence,
    UnknownModifier(S),
    UnknownKey(S),
    UnknownAction(S),
    /// Two keys, and the first is not the leader.
    OnlyLeaderPairs(S),
    /// More than two keys.
    TooLong(S),
}

impl View for BindError {
    type V = BindError<Seq<char>>;

    open spec fn view(&self) -> BindError<Seq<char>> {
        match self {
            BindError::Unterminated(s) => BindError::Unterminated(s@),
            BindError::EmptySequence => BindError::EmptySequence,
            BindError::UnknownModifier(s) => BindError::UnknownModifier(s@),
            BindError::UnknownKey(s) => BindError::UnknownKey(s@),
            BindError::UnknownAction(s) => BindError::UnknownAction(s@),
            BindError::OnlyLeaderPairs(s) => BindError::OnlyLeaderPairs(s@),
            BindError::TooLong(s) => BindError::TooLong(s@),
        }
    }
}

impl<S> BindError<S> {
    /// The fixed parts of the message, around what the error carries.
    pub open spec fn frame(self) -> (Seq<char>, Option<S>, Seq<char>) {
        match self {
            BindError::Unterminated(s) => ("unterminated <...> in `"@, Some(s), "`"@),
            BindError::EmptySequence => ("empty key sequence"@, None, ""@),
            BindError::UnknownModifier(s) => ("unknown modifier: "@, Some(s), ""@),
            BindError::UnknownKey(s) => ("unknown key: <"@, Some(s), ">"@),
            BindError::UnknownAction(s) => ("unknown action: "@, Some(s), ""@),
            BindError::OnlyLeaderPairs(s) => (
                "only `<space>X` two-key sequences are supported; got: "@,
                Some(s),
                ""@,
            ),
            BindError::TooLong(s) => (
                "sequences of more than 2 keys aren't supported yet; got: "@,
                Some(s),
                ""@,
            ),
        }
    }
}

fn framed(a: &str, b: &str, c: &str) -> (r: String)
    ensures
        r@ == a@ + b@ + c@,
{
    let mut s = String::new();
    push_str(&mut s, a);
    push_str(&mut s, b);
    push_str(&mut s, c);
    proof {
        assert(s@ =~= a@ + b@ + c@);
    }
    s
}

impl BindError {
    /// The error in words.
    pub fn message(&self) -> (r: String)
        ensures
            match self@.frame() {
                (a, Some(b), c) => r@ == a + b + c,
                (a, None, c) => r@ == a + c,
            },
    {
        match self {
            BindError::Unterminated(s) => framed("unterminated <...> in `", s.as_str(), "`"),
            BindError::EmptySequence => {
                let r = framed("empty key sequence", "", "");
                proof {
                    reveal_strlit("");
                    assert(r@ =~= "empty key sequence"@ + ""@);
                }
                r
            },
            BindError::UnknownModifier(s) => framed("unknown modifier: ", s.as_str(), ""),
            BindError::UnknownKey(s) => framed("unknown key: <", s.as_str(), ">"),
            BindError::UnknownAction(s) => framed("unknown action: ", s.as_str(), ""),
            BindError::OnlyLeaderPairs(s) => framed(
                "only `<space>X` two-key sequences are supported; got: ",
                s.as_str(),
                "",
            ),
            BindError::TooLong(s) => framed(
                "sequences of more than 2 keys aren't supported yet; got: ",
                s.as_str(),
                "",
            ),
        }
    }
}

/// The modifiers with one more of the given name.
pub open spec fn add_modifier(m: KeyModifiers, name: Seq<char>) -> Option<KeyModifiers> {
    if name == "c"@ || name == "ctrl"@ {
        Some(KeyModifiers { control: true, ..m })
    } else if name == "s"@ || name == "shift"@ {
        Some(KeyModifiers { shift: true, ..m })
    } else if name == "a"@ || name == "alt"@ || name == "m"@ || name == "meta"@ {
        Some(KeyModifiers { alt: true, ..m })
    } else {
        None
    }
}

/// The modifiers that the first `k` parts name.
pub open spec fn modifiers_of(parts: Seq<Seq<char>>, k: int) -> Result<KeyModifiers, BindError<Seq<char>>>
    decreases k,
{
    if k <= 0 {
        Ok(KeyModifiers::spec_none())
    } else {
        match modifiers_of(parts, k - 1) {
            Err(e) => Err(e),
            Ok(m) => match add_modifier(m, parts[k - 1]) {
                Some(n) => Ok(n),
                None => Err(BindError::UnknownModifier(parts[k - 1])),
            },
        }
    }
}

/// The key that goes by a name.
pub open spec fn key_named(name: Seq<char>) -> Option<KeyCode> {
    if name == "space"@ {
        Some(KeyCode::Char(' '))
    } else if name == "esc"@ {
        Some(KeyCode::Esc)
    } else if name == "cr"@ || name == "enter"@ || name == "return"@ {
        Some(KeyCode::Enter)
    } else if name == "bs"@ || name == "backspace"@ {
        Some(KeyCode::Backspace)
    } else if name == "tab"@ {
        Some(KeyCode::Tab)
    } else if name == "left"@ {
        Some(KeyCode::Left)
    } else if name == "right"@ {
        Some(KeyCode::Right)
    } else if name == "up"@ {
        Some(KeyCode::Up)
    } else if name == "down"@ {
        Some(KeyCode::Down)
    } else if name == "home"@ {
        Some(KeyCode::Home)
    } else if name == "end"@ {
        Some(KeyCode::End)
    } else if name.len() == 1 {
        Some(KeyCode::Char(name[0]))
    } else {
        None
    }
}

/// The key that a name in angle brackets stands for. Case does not count.
pub open spec fn named_key(name: Seq<char>) -> Result<KeySig, BindError<Seq<char>>> {
    let parts = pieces(lower_text(name), '-');
    match modifiers_of(parts, parts.len() - 1) {
        Err(e) => Err(e),
        Ok(m) => match key_named(parts.last()) {
            Some(code) => Ok(KeySig::of(code, m)),
            None => Err(BindError::UnknownKey(parts.last())),
        },
    }
}

/// The keys that a notation stands for, from place `i` on, after those in
/// `acc`.
pub open spec fn keys_from(s: Seq<char>, i: int, acc: Seq<KeySig>) -> Result<Seq<KeySig>, BindError<Seq<char>>>
    decreases s.len() - i,
{
    if i < 0 || i >= s.len() {
        if acc.len() == 0 {
            Err(BindError::EmptySequence)
        } else {
            Ok(acc)
        }
    } else if s[i] == '<' {
        match first_at(s, '>', i + 1) {
            None => Err(BindError::Unterminated(s)),
            Some(e) => if i < e < s.len() {
                match named_key(s.subrange(i + 1, e)) {
                    Err(x) => Err(x),
                    Ok(k) => keys_from(s, e + 1, acc.push(k)),
                }
            } else {
                Err(BindError::Unterminated(s))
            },
        }
    } else {
        keys_from(s, i + 1, acc.push(KeySig::of(KeyCode::Char(s[i]), KeyModifiers::spec_none())))
    }
}

/// The keys that a notation stands for.
pub open spec fn key_sequence(s: Seq<char>) -> Result<Seq<KeySig>, BindError<Seq<char>>> {
    keys_from(s, 0, Seq::empty())
}

/// Whether a result and its model agree: the same keys or the same error.
pub open spec fn same_keys(r: Result<Vec<KeySig>, BindError>, m: Result<Seq<KeySig>, BindError<Seq<char>>>) -> bool {
    match (r, m) {
        (Ok(a), Ok(b)) => a@ == b,
        (Err(a), Err(b)) => a@ == b,
        _ => false,
    }
}

/// Reads the notation of one or more keys.
pub fn parse_sequence(s: &str) -> (r: Result<Vec<KeySig>, BindError>)
    ensures
        same_keys(r, key_sequence(s@)),
{
    let cs = chars_of(s);
    let mut out: Vec<KeySig> = Vec::new();
    let mut i: usize = 0;
    while i < cs.len()
        invariant
            i <= cs.len(),
            cs@ == s@,
            key_sequence(s@) == keys_from(s@, i as int, out@),
        decreases cs.len() - i,
    {
        if cs[i] == '<' {
            let start = i + 1;
            let mut e: usize = start;
            while e < cs.len() && cs[e] != '>'
                invariant
                    start <= e <= cs.len(),
                    cs@ == s@,
                    first_at(s@, '>', start as int) == first_at(s@, '>', e as int),
                decreases cs.len() - e,
            {
                e = e + 1;
            }
            if e >= cs.len() {
                return Err(BindError::Unterminated(string_of(&cs)));
            }
            let name = slice_chars(&cs, start, e);
            let text = string_of(&name);
            match parse_named_key(text.as_str()) {
                Ok(k) => {
                    out.push(k);
                },
                Err(x) => {
                    return Err(x);
                },
            }
            i = e + 1;
        } else {
            out.push(KeySig::new(KeyCode::Char(cs[i]), KeyModifiers::none()));
            i = i + 1;
        }
    }
    if out.len() == 0 {
        return Err(BindError::EmptySequence);
    }
    Ok(out)
}

fn with_modifier(m: KeyModifiers, name: &Vec<char>) -> (r: Option<KeyModifiers>)
    ensures
        r == add_modifier(m, name@),
{
    let mut m = m;
    if spells(name, "c") || spells(name, "ctrl") {
        m.control = true;
        Some(m)
    } else if spells(name, "s") || spells(name, "shift") {
        m.shift = true;
        Some(m)
    } else if spells(name, "a") || spells(name, "alt") || spells(name, "m") || spells(name, "meta") {
        m.alt = true;
        Some(m)
    } else {
        None
    }
}

fn key_by_name(name: &Vec<char>) -> (r: Option<KeyCode>)
    ensures
        r == key_named(name@),
{
    if spells(name, "space") {
        Some(KeyCode::Char(' '))
    } else if spells(name, "esc") {
        Some(KeyCode::Esc)
    } else if spells(name, "cr") || spells(name, "enter") || spells(name, "return") {
        Some(KeyCode::Enter)
    } else if spells(name, "bs") || spells(name, "backspace") {
        Some(KeyCode::Backspace)
    } else if spells(name, "tab") {
        Some(KeyCode::Tab)
    } else if spells(name, "left") {
        Some(KeyCode::Left)
    } else if spells(name, "right") {
        Some(KeyCode::Right)
    } else if spells(name, "up") {
        Some(KeyCode::Up)
    } else if spells(name, "down") {
        Some(KeyCode::Down)
    } else if spells(name, "home") {
        Some(KeyCode::Home)
    } else if spells(name, "end") {
        Some(KeyCode::End)
    } else if name.len() == 1 {
        Some(KeyCode::Char(name[0]))
    } else {
        None
    }
}

/// Reads the name of a key, with its modifiers.
pub fn parse_named_key(name: &str) -> (r: Result<KeySig, BindError>)
    ensures
        match (r, named_key(name@)) {
            (Ok(a), Ok(b)) => a == b,
            (Err(a), Err(b)) => a@ == b,
            _ => false,
        },
{
    let lower = to_lower_text(name);
    let cs = chars_of(lower.as_str());
    let parts = split_chars(&cs, '-');
    let ghost model = pieces(lower_text(name@), '-');
    let last = parts.len() - 1;
    let mut mods = KeyModifiers::none();
    let mut i: usize = 0;
    while i < last
        invariant
            i <= last,
            last == parts.len() - 1,
            char_rows(parts@) == model,
            model == pieces(lower_text(name@), '-'),
            modifiers_of(model, i as int) == Ok::<KeyModifiers, BindError<Seq<char>>>(mods),
        decreases last - i,
    {
        proof {
            assert(model[i as int] == parts@[i as int]@);
        }
        match with_modifier(mods, &parts[i]) {
            Some(n) => {
                mods = n;
            },
            None => {
                proof {
                    lemma_modifier_error(model, i + 1, last as int);
                }
                return Err(BindError::UnknownModifier(string_of(&parts[i])));
            },
        }
        i = i + 1;
    }
    proof {
        assert(model.last() == parts@[last as int]@);
    }
    match key_by_name(&parts[last]) {
        Some(code) => Ok(KeySig::new(code, mods)),
        None => Err(BindError::UnknownKey(string_of(&parts[last]))),
    }
}

/// The first unknown modifier is the one that is reported.
proof fn lemma_modifier_error(parts: Seq<Seq<char>>, k: int, n: int)
    requires
        0 <= k <= n,
        modifiers_of(parts, k) is Err,
    ensures
        modifiers_of(parts, n) == modifiers_of(parts, k),
    decreases n - k,
{
    if k < n {
        lemma_modifier_error(parts, k, n - 1);
    }
}

/// The token of an action name.
pub open spec fn action_token(name: Seq<char>) -> Option<Token> {
    if name == "left"@ {
        Some(Token::Motion(MotionKind::Left))
    } else if name == "right"@ {
        Some(Token::Motion(MotionKind::Right))
    } else if name == "up"@ {
        Some(Token::Motion(MotionKind::Up))
    } else if name == "down"@ {
        Some(Token::Motion(MotionKind::Down))
    } else if name == "line-start"@ {
        Some(Token::Motion(MotionKind::LineStart))
    } else if name == "line-end"@ {
        Some(Token::Motion(MotionKind::LineEnd))
    } else if name == "word-forward"@ {
        Some(Token::Motion(MotionKind::WordForward))
    } else if name == "word-back"@ {
        Some(Token::Motion(MotionKind::WordBack))
    } else if name == "file-start"@ {
        Some(Token::Motion(MotionKind::FileStart))
    } else if name == "file-end"@ {
        Some(Token::Motion(MotionKind::FileEnd))
    } else if name == "search-next"@ {
        Some(Token::Motion(MotionKind::SearchNext))
    } else if name == "search-prev"@ {
        Some(Token::Motion(MotionKind::SearchPrev))
    } else if name == "save"@ {
        Some(Token::Direct(DirectKind::Save))
    } else if name == "open"@ {
        Some(Token::Direct(DirectKind::Open))
    } else if name == "quit"@ {
        Some(Token::Direct(DirectKind::Quit))
    } else if name == "quit-force"@ {
        Some(Token::Direct(DirectKind::QuitForce))
    } else if name == "save-and-quit"@ {
        Some(Token::Direct(DirectKind::SaveAndQuit))
    } else if name == "goto-line"@ {
        Some(Token::Direct(DirectKind::GotoLine))
    } else if name == "enter-insert"@ {
        Some(Token::Direct(DirectKind::EnterMode(Mode::Insert)))
    } else if name == "enter-normal"@ {
        Some(Token::Direct(DirectKind::EnterMode(Mode::Normal)))
    } else if name == "enter-visual"@ {
        Some(Token::Direct(DirectKind::EnterMode(Mode::Visual)))
    } else if name == "enter-visual-line"@ {
        Some(Token::Direct(DirectKind::EnterMode(Mode::VisualLine)))
    } else if name == "enter-visual-block"@ {
        Some(Token::Direct(DirectKind::EnterMode(Mode::VisualBlock)))
    } else if name == "open-line-below"@ {
        Some(Token::Direct(DirectKind::OpenLineBelow))
    } else if name == "open-line-above"@ {
        Some(Token::Direct(DirectKind::OpenLineAbove))
    } else if name == "paste"@ {
        Some(Token::Direct(DirectKind::Paste))
    } else if name == "undo"@ {
        Some(Token::Direct(DirectKind::Undo))
    } else if name == "redo"@ {
        Some(Token::Direct(DirectKind::Redo))
    } else if name == "delete-char"@ {
        Some(Token::Direct(DirectKind::DeleteCharUnderCursor))
    } else if name == "command-prompt"@ {
        Some(Token::Direct(DirectKind::OpenPrompt(PromptKind::Command)))
    } else if name == "search-forward"@ {
        Some(Token::Direct(DirectKind::OpenPrompt(PromptKind::Search { forward: true })))
    } else if name == "search-backward"@ {
        Some(Token::Direct(DirectKind::OpenPrompt(PromptKind::Search { forward: false })))
    } else if name == "fuzzy-files"@ {
        Some(Token::Direct(DirectKind::OpenPrompt(PromptKind::Fuzzy(FuzzyKind::Files { ignore: IgnoreOpts { vcs: true, hidden: true } }))))
    } else if name == "fuzzy-lines"@ {
        Some(Token::Direct(DirectKind::OpenPrompt(PromptKind::Fuzzy(FuzzyKind::Lines))))
    } else if name == "delete-operator"@ {
        Some(Token::Op(Operator::Delete))
    } else if name == "yank-operator"@ {
        Some(Token::Op(Operator::Yank))
    } else if name == "change-operator"@ {
        Some(Token::Op(Operator::Change))
    } else if name == "leader"@ {
        Some(Token::LeaderPrefix)
    } else if name == "goto-prefix"@ {
        Some(Token::GotoPrefix)
    } else {
        None
    }
}

/// The token of an action name.
pub fn action_to_token(name: &str) -> (r: Option<Token>)
    ensures
        r == action_token(name@),
{
    let cs = chars_of(name);
    if spells(&cs, "left") {
        Some(Token::Motion(MotionKind::Left))
    } else if spells(&cs, "right") {
        Some(Token::Motion(MotionKind::Right))
    } else if spells(&cs, "up") {
        Some(Token::Motion(MotionKind::Up))
    } else if spells(&cs, "down") {
        Some(Token::Motion(MotionKind::Down))
    } else if spells(&cs, "line-start") {
        Some(Token::Motion(MotionKind::LineStart))
    } else if spells(&cs, "line-end") {
        Some(Token::Motion(MotionKind::LineEnd))
    } else if spells(&cs, "word-forward") {
        Some(Token::Motion(MotionKind::WordForward))
    } else if spells(&cs, "word-back") {
        Some(Token::Motion(MotionKind::WordBack))
    } else if spells(&cs, "file-start") {
        Some(Token::Motion(MotionKind::FileStart))
    } else if spells(&cs, "file-end") {
        Some(Token::Motion(MotionKind::FileEnd))
    } else if spells(&cs, "search-next") {
        Some(Token::Motion(MotionKind::SearchNext))
    } else if spells(&cs, "search-prev") {
        Some(Token::Motion(MotionKind::SearchPrev))
    } else if spells(&cs, "save") {
        Some(Token::Direct(DirectKind::Save))
    } else if spells(&cs, "open") {
        Some(Token::Direct(DirectKind::Open))
    } else if spells(&cs, "quit") {
        Some(Token::Direct(DirectKind::Quit))
    } else if spells(&cs, "quit-force") {
        Some(Token::Direct(DirectKind::QuitForce))
    } else if spells(&cs, "save-and-quit") {
        Some(Token::Direct(DirectKind::SaveAndQuit))
    } else if spells(&cs, "goto-line") {
        Some(Token::Direct(DirectKind::GotoLine))
    } else if spells(&cs, "enter-insert") {
        Some(Token::Direct(DirectKind::EnterMode(Mode::Insert)))
    } else if spells(&cs, "enter-normal") {
        Some(Token::Direct(DirectKind::EnterMode(Mode::Normal)))
    } else if spells(&cs, "enter-visual") {
        Some(Token::Direct(DirectKind::EnterMode(Mode::Visual)))
    } else if spells(&cs, "enter-visual-line") {
        Some(Token::Direct(DirectKind::EnterMode(Mode::VisualLine)))
    } else if spells(&cs, "enter-visual-block") {
        Some(Token::Direct(DirectKind::EnterMode(Mode::VisualBlock)))
    } else if spells(&cs, "open-line-below") {
        Some(Token::Direct(DirectKind::OpenLineBelow))
    } else if spells(&cs, "open-line-above") {
        Some(Token::Direct(DirectKind::OpenLineAbove))
    } else if spells(&cs, "paste") {
        Some(Token::Direct(DirectKind::Paste))
    } else if spells(&cs, "undo") {
        Some(Token::Direct(DirectKind::Undo))
    } else if spells(&cs, "redo") {
        Some(Token::Direct(DirectKind::Redo))
    } else if spells(&cs, "delete-char") {
        Some(Token::Direct(DirectKind::DeleteCharUnderCursor))
    } else if spells(&cs, "command-prompt") {
        Some(Token::Direct(DirectKind::OpenPrompt(PromptKind::Command)))
    } else if spells(&cs, "search-forward") {
        Some(Token::Direct(DirectKind::OpenPrompt(PromptKind::Search { forward: true })))
    } else if spells(&cs, "search-backward") {
        Some(Token::Direct(DirectKind::OpenPrompt(PromptKind::Search { forward: false })))
    } else if spells(&cs, "fuzzy-files") {
        Some(Token::Direct(DirectKind::OpenPrompt(PromptKind::Fuzzy(FuzzyKind::Files { ignore: IgnoreOpts { vcs: true, hidden: true } }))))
    } else if spells(&cs, "fuzzy-lines") {
        Some(Token::Direct(DirectKind::OpenPrompt(PromptKind::Fuzzy(FuzzyKind::Lines))))
    } else if spells(&cs, "delete-operator") {
        Some(Token::Op(Operator::Delete))
    } else if spells(&cs, "yank-operator") {
        Some(Token::Op(Operator::Yank))
    } else if spells(&cs, "change-operator") {
        Some(Token::Op(Operator::Change))
    } else if spells(&cs, "leader") {
        Some(Token::LeaderPrefix)
    } else if spells(&cs, "goto-prefix") {
        Some(Token::GotoPrefix)
    } else {
        None
    }
}

} // verus!
