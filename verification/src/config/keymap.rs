//! Key bindings: the tables that customisation can change, and the fixed
//! tables of the keys that continue a command.
use vstd::prelude::*;
use crate::action::{DirectKind, MotionKind, Object, Operator, PromptKind, Scope, Token};
use crate::finder::{FuzzyKind, IgnoreOpts};
use crate::keys::{KeyCode, KeyEvent, KeyModifiers};
use crate::mode::Mode;

verus! {

/// The key that starts the user's own commands.
pub const LEADER: char = ' ';

/// One row of a fixed table. The label is what hints show; the aliases
/// resolve to the same token without a row of their own.
#[derive(Debug)]
pub struct Binding {
    pub key: KeyCode,
    pub aliases: Vec<KeyCode>,
    pub token: Token,
    pub label: &'static str,
}

/// The content of a row.
#[verifier::ext_equal]
pub struct BindingView {
    pub key: KeyCode,
    pub aliases: Seq<KeyCode>,
    pub token: Token,
    pub label: Seq<char>,
}

impl View for Binding {
    type V = BindingView;

    open spec fn view(&self) -> BindingView {
        BindingView { key: self.key, aliases: self.aliases@, token: self.token, label: self.label@ }
    }
}

pub open spec fn bindings_of(v: Seq<Binding>) -> Seq<BindingView> {
    Seq::new(v.len(), |i: int| v[i]@)
}

pub open spec fn entry(key: KeyCode, aliases: Seq<KeyCode>, token: Token, label: Seq<char>) -> BindingView {
    BindingView { key, aliases, token, label }
}

impl BindingView {
    pub open spec fn matched(self, code: KeyCode) -> bool {
        self.key == code || self.aliases.contains(code)
    }
}

/// The token of the first row, from index `k` on, that the key matches.
pub open spec fn lookup(t: Seq<BindingView>, code: KeyCode, k: int) -> Option<Token>
    decreases t.len() - k,
{
    if k < 0 || k >= t.len() {
        None
    } else if t[k].matched(code) {
        Some(t[k].token)
    } else {
        lookup(t, code, k + 1)
    }
}

impl Binding {
    /// Whether a key belongs to this row.
    pub fn matches(&self, code: KeyCode) -> (r: bool)
        ensures
            r == self@.matched(code),
    {
        if self.key == code {
            return true;
        }
        let mut i: usize = 0;
        while i < self.aliases.len()
            invariant
                i <= self.aliases.len(),
                self.key != code,
                forall|k: int| 0 <= k < i ==> self.aliases@[k] != code,
            decreases self.aliases.len() - i,
        {
            if self.aliases[i] == code {
                proof {
                    assert(self@.aliases[i as int] == code);
                }
                return true;
            }
            i = i + 1;
        }
        false
    }
}

/// The token of the first row that a key matches.
pub fn find_binding(t: &Vec<Binding>, code: KeyCode) -> (r: Option<Token>)
    ensures
        r == lookup(bindings_of(t@), code, 0),
{
    let mut i: usize = 0;
    while i < t.len()
        invariant
            i <= t.len(),
            lookup(bindings_of(t@), code, 0) == lookup(bindings_of(t@), code, i as int),
        decreases t.len() - i,
    {
        if t[i].matches(code) {
            return Some(t[i].token);
        }
        i = i + 1;
    }
    None
}

fn row(t: &mut Vec<Binding>, key: KeyCode, token: Token, label: &'static str)
    ensures
        bindings_of(final(t)@) == bindings_of(old(t)@).push(entry(key, Seq::empty(), token, label@)),
{
    t.push(Binding { key, aliases: Vec::new(), token, label });
    proof {
        assert(bindings_of(t@) =~= bindings_of(old(t)@).push(entry(key, Seq::empty(), token, label@)));
    }
}

fn row_alias(t: &mut Vec<Binding>, key: KeyCode, alias: KeyCode, token: Token, label: &'static str)
    ensures
        bindings_of(final(t)@) == bindings_of(old(t)@).push(entry(key, seq![alias], token, label@)),
{
    let mut aliases: Vec<KeyCode> = Vec::new();
    aliases.push(alias);
    t.push(Binding { key, aliases, token, label });
    proof {
        assert(bindings_of(t@) =~= bindings_of(old(t)@).push(entry(key, seq![alias], token, label@)));
    }
}

fn row_aliases(t: &mut Vec<Binding>, key: KeyCode, one: KeyCode, two: KeyCode, token: Token, label: &'static str)
    ensures
        bindings_of(final(t)@) == bindings_of(old(t)@).push(entry(key, seq![one, two], token, label@)),
{
    let mut aliases: Vec<KeyCode> = Vec::new();
    aliases.push(one);
    aliases.push(two);
    proof {
        assert(aliases@ =~= seq![one, two]);
    }
    t.push(Binding { key, aliases, token, label });
    proof {
        assert(bindings_of(t@) =~= bindings_of(old(t)@).push(entry(key, seq![one, two], token, label@)));
    }
}

/// The keys that may follow an operator.
pub open spec fn op_pending_table() -> Seq<BindingView> {
    seq![
        entry(KeyCode::Char('i'), Seq::empty(), Token::Scope(Scope::Inner), "inner …"@),
        entry(KeyCode::Char('a'), Seq::empty(), Token::Scope(Scope::Around), "around …"@),
        entry(KeyCode::Char('w'), Seq::empty(), Token::Motion(MotionKind::WordForward), "word"@),
        entry(KeyCode::Char('b'), Seq::empty(), Token::Motion(MotionKind::WordBack), "back"@),
        entry(KeyCode::Char('e'), Seq::empty(), Token::Motion(MotionKind::WordEnd), "word end"@),
        entry(KeyCode::Char('W'), Seq::empty(), Token::Motion(MotionKind::BigWordForward), "WORD"@),
        entry(KeyCode::Char('B'), Seq::empty(), Token::Motion(MotionKind::BigWordBack), "WORD back"@),
        entry(KeyCode::Char('E'), Seq::empty(), Token::Motion(MotionKind::BigWordEnd), "WORD end"@),
        entry(KeyCode::Char('f'), Seq::empty(), Token::FindCharPrefix { forward: true, till: false }, "find char →"@),
        entry(KeyCode::Char('F'), Seq::empty(), Token::FindCharPrefix { forward: false, till: false }, "find char ←"@),
        entry(KeyCode::Char('t'), Seq::empty(), Token::FindCharPrefix { forward: true, till: true }, "till char →"@),
        entry(KeyCode::Char('T'), Seq::empty(), Token::FindCharPrefix { forward: false, till: true }, "till char ←"@),
        entry(KeyCode::Char(';'), Seq::empty(), Token::Motion(MotionKind::RepeatFind { reverse: false }), "repeat find"@),
        entry(KeyCode::Char(','), Seq::empty(), Token::Motion(MotionKind::RepeatFind { reverse: true }), "repeat find ↺"@),
        entry(KeyCode::Char('}'), Seq::empty(), Token::Motion(MotionKind::ParagraphForward), "paragraph fwd"@),
        entry(KeyCode::Char('{'), Seq::empty(), Token::Motion(MotionKind::ParagraphBack), "paragraph back"@),
        entry(KeyCode::Char('$'), seq![KeyCode::End], Token::Motion(MotionKind::LineEnd), "line end"@),
        entry(KeyCode::Char('0'), seq![KeyCode::Home], Token::Motion(MotionKind::LineStart), "line start"@),
        entry(KeyCode::Char('^'), Seq::empty(), Token::Motion(MotionKind::LineFirstNonBlank), "first non-blank"@),
        entry(KeyCode::Char('%'), Seq::empty(), Token::Motion(MotionKind::BracketMatch), "match bracket"@),
        entry(KeyCode::Char('h'), seq![KeyCode::Left], Token::Motion(MotionKind::Left), "left"@),
        entry(KeyCode::Char('l'), seq![KeyCode::Right], Token::Motion(MotionKind::Right), "right"@),
        entry(KeyCode::Char('j'), seq![KeyCode::Down], Token::Motion(MotionKind::Down), "down"@),
        entry(KeyCode::Char('k'), seq![KeyCode::Up], Token::Motion(MotionKind::Up), "up"@),
        entry(KeyCode::Char('G'), Seq::empty(), Token::Motion(MotionKind::FileEnd), "file end"@),
    ]
}

/// The keys that may follow an operator.
pub fn op_pending_bindings() -> (r: Vec<Binding>)
    ensures
        bindings_of(r@) == op_pending_table(),
{
    let mut t: Vec<Binding> = Vec::new();
    proof {
        assert(bindings_of(t@) =~= Seq::<BindingView>::empty());
    }
    row(&mut t, KeyCode::Char('i'), Token::Scope(Scope::Inner), "inner …");
    row(&mut t, KeyCode::Char('a'), Token::Scope(Scope::Around), "around …");
    row(&mut t, KeyCode::Char('w'), Token::Motion(MotionKind::WordForward), "word");
    row(&mut t, KeyCode::Char('b'), Token::Motion(MotionKind::WordBack), "back");
    row(&mut t, KeyCode::Char('e'), Token::Motion(MotionKind::WordEnd), "word end");
    row(&mut t, KeyCode::Char('W'), Token::Motion(MotionKind::BigWordForward), "WORD");
    row(&mut t, KeyCode::Char('B'), Token::Motion(MotionKind::BigWordBack), "WORD back");
    row(&mut t, KeyCode::Char('E'), Token::Motion(MotionKind::BigWordEnd), "WORD end");
    row(&mut t, KeyCode::Char('f'), Token::FindCharPrefix { forward: true, till: false }, "find char →");
    row(&mut t, KeyCode::Char('F'), Token::FindCharPrefix { forward: false, till: false }, "find char ←");
    row(&mut t, KeyCode::Char('t'), Token::FindCharPrefix { forward: true, till: true }, "till char →");
    row(&mut t, KeyCode::Char('T'), Token::FindCharPrefix { forward: false, till: true }, "till char ←");
    row(&mut t, KeyCode::Char(';'), Token::Motion(MotionKind::RepeatFind { reverse: false }), "repeat find");
    row(&mut t, KeyCode::Char(','), Token::Motion(MotionKind::RepeatFind { reverse: true }), "repeat find ↺");
    row(&mut t, KeyCode::Char('}'), Token::Motion(MotionKind::ParagraphForward), "paragraph fwd");
    row(&mut t, KeyCode::Char('{'), Token::Motion(MotionKind::ParagraphBack), "paragraph back");
    row_alias(&mut t, KeyCode::Char('$'), KeyCode::End, Token::Motion(MotionKind::LineEnd), "line end");
    row_alias(&mut t, KeyCode::Char('0'), KeyCode::Home, Token::Motion(MotionKind::LineStart), "line start");
    row(&mut t, KeyCode::Char('^'), Token::Motion(MotionKind::LineFirstNonBlank), "first non-blank");
    row(&mut t, KeyCode::Char('%'), Token::Motion(MotionKind::BracketMatch), "match bracket");
    row_alias(&mut t, KeyCode::Char('h'), KeyCode::Left, Token::Motion(MotionKind::Left), "left");
    row_alias(&mut t, KeyCode::Char('l'), KeyCode::Right, Token::Motion(MotionKind::Right), "right");
    row_alias(&mut t, KeyCode::Char('j'), KeyCode::Down, Token::Motion(MotionKind::Down), "down");
    row_alias(&mut t, KeyCode::Char('k'), KeyCode::Up, Token::Motion(MotionKind::Up), "up");
    row(&mut t, KeyCode::Char('G'), Token::Motion(MotionKind::FileEnd), "file end");
    t
}

/// The keys that may follow `g`.
pub open spec fn goto_table() -> Seq<BindingView> {
    seq![
        entry(KeyCode::Char('g'), Seq::empty(), Token::GotoPrefix, "file start (gg)"@),
        entry(KeyCode::Char('_'), Seq::empty(), Token::Motion(MotionKind::LineLastNonBlank), "line last non-blank"@),
        entry(KeyCode::Char('e'), Seq::empty(), Token::Motion(MotionKind::WordEndBack), "word end back"@),
        entry(KeyCode::Char('E'), Seq::empty(), Token::Motion(MotionKind::BigWordEndBack), "WORD end back"@),
        entry(KeyCode::Char('s'), Seq::empty(), Token::Motion(MotionKind::LineFirstNonBlank), "line start (= ^)"@),
        entry(KeyCode::Char('l'), Seq::empty(), Token::Motion(MotionKind::LineEnd), "line end (= $)"@),
        entry(KeyCode::Char('c'), Seq::empty(), Token::Motion(MotionKind::ViewportMiddle), "viewport mid (= M)"@),
        entry(KeyCode::Char('b'), Seq::empty(), Token::Motion(MotionKind::ViewportBottom), "viewport bot (= L)"@),
        entry(KeyCode::Char('d'), Seq::empty(), Token::Direct(DirectKind::GotoDefinition), "definition (lsp)"@),
        entry(KeyCode::Char('D'), Seq::empty(), Token::Direct(DirectKind::GotoDeclaration), "declaration (lsp)"@),
        entry(KeyCode::Char('i'), Seq::empty(), Token::Direct(DirectKind::GotoImplementation), "implementation (lsp)"@),
        entry(KeyCode::Char('r'), Seq::empty(), Token::Direct(DirectKind::FindReferences), "references (lsp)"@),
    ]
}

/// The keys that may follow `g`.
pub fn goto_bindings() -> (r: Vec<Binding>)
    ensures
        bindings_of(r@) == goto_table(),
{
    let mut t: Vec<Binding> = Vec::new();
    proof {
        assert(bindings_of(t@) =~= Seq::<BindingView>::empty());
    }
    row(&mut t, KeyCode::Char('g'), Token::GotoPrefix, "file start (gg)");
    row(&mut t, KeyCode::Char('_'), Token::Motion(MotionKind::LineLastNonBlank), "line last non-blank");
    row(&mut t, KeyCode::Char('e'), Token::Motion(MotionKind::WordEndBack), "word end back");
    row(&mut t, KeyCode::Char('E'), Token::Motion(MotionKind::BigWordEndBack), "WORD end back");
    row(&mut t, KeyCode::Char('s'), Token::Motion(MotionKind::LineFirstNonBlank), "line start (= ^)");
    row(&mut t, KeyCode::Char('l'), Token::Motion(MotionKind::LineEnd), "line end (= $)");
    row(&mut t, KeyCode::Char('c'), Token::Motion(MotionKind::ViewportMiddle), "viewport mid (= M)");
    row(&mut t, KeyCode::Char('b'), Token::Motion(MotionKind::ViewportBottom), "viewport bot (= L)");
    row(&mut t, KeyCode::Char('d'), Token::Direct(DirectKind::GotoDefinition), "definition (lsp)");
    row(&mut t, KeyCode::Char('D'), Token::Direct(DirectKind::GotoDeclaration), "declaration (lsp)");
    row(&mut t, KeyCode::Char('i'), Token::Direct(DirectKind::GotoImplementation), "implementation (lsp)");
    row(&mut t, KeyCode::Char('r'), Token::Direct(DirectKind::FindReferences), "references (lsp)");
    t
}

/// The keys that may follow `z`.
pub open spec fn z_table() -> Seq<BindingView> {
    seq![
        entry(KeyCode::Char('z'), Seq::empty(), Token::Direct(DirectKind::ViewportCenter), "center cursor"@),
        entry(KeyCode::Char('t'), Seq::empty(), Token::Direct(DirectKind::ViewportTopAtCursor), "scroll cursor to top"@),
        entry(KeyCode::Char('b'), Seq::empty(), Token::Direct(DirectKind::ViewportBottomAtCursor), "scroll cursor to bottom"@),
    ]
}

/// The keys that may follow `z`.
pub fn z_bindings() -> (r: Vec<Binding>)
    ensures
        bindings_of(r@) == z_table(),
{
    let mut t: Vec<Binding> = Vec::new();
    proof {
        assert(bindings_of(t@) =~= Seq::<BindingView>::empty());
    }
    row(&mut t, KeyCode::Char('z'), Token::Direct(DirectKind::ViewportCenter), "center cursor");
    row(&mut t, KeyCode::Char('t'), Token::Direct(DirectKind::ViewportTopAtCursor), "scroll cursor to top");
    row(&mut t, KeyCode::Char('b'), Token::Direct(DirectKind::ViewportBottomAtCursor), "scroll cursor to bottom");
    t
}

/// The default bindings after the leader.
pub open spec fn leader_table() -> Seq<BindingView> {
    seq![
        entry(KeyCode::Char('f'), Seq::empty(), Token::Direct(DirectKind::OpenPrompt(PromptKind::Fuzzy(FuzzyKind::Files { ignore: IgnoreOpts { vcs: true, hidden: true } }))), "fuzzy files"@),
        entry(KeyCode::Char('F'), Seq::empty(), Token::Direct(DirectKind::OpenPrompt(PromptKind::Fuzzy(FuzzyKind::Files { ignore: IgnoreOpts { vcs: true, hidden: false } }))), "fuzzy files (hidden)"@),
        entry(KeyCode::Char('l'), Seq::empty(), Token::Direct(DirectKind::OpenPrompt(PromptKind::Fuzzy(FuzzyKind::Lines))), "fuzzy lines"@),
        entry(KeyCode::Char('b'), Seq::empty(), Token::Direct(DirectKind::OpenPrompt(PromptKind::Fuzzy(FuzzyKind::Buffers))), "buffer picker"@),
        entry(KeyCode::Char('r'), Seq::empty(), Token::Direct(DirectKind::Rename), "rename (lsp)"@),
        entry(KeyCode::Char('a'), Seq::empty(), Token::Direct(DirectKind::CodeAction), "code action (lsp)"@),
    ]
}

/// The default bindings after the leader.
pub fn leader_bindings() -> (r: Vec<Binding>)
    ensures
        bindings_of(r@) == leader_table(),
{
    let mut t: Vec<Binding> = Vec::new();
    proof {
        assert(bindings_of(t@) =~= Seq::<BindingView>::empty());
    }
    row(&mut t, KeyCode::Char('f'), Token::Direct(DirectKind::OpenPrompt(PromptKind::Fuzzy(FuzzyKind::Files { ignore: IgnoreOpts { vcs: true, hidden: true } }))), "fuzzy files");
    row(&mut t, KeyCode::Char('F'), Token::Direct(DirectKind::OpenPrompt(PromptKind::Fuzzy(FuzzyKind::Files { ignore: IgnoreOpts { vcs: true, hidden: false } }))), "fuzzy files (hidden)");
    row(&mut t, KeyCode::Char('l'), Token::Direct(DirectKind::OpenPrompt(PromptKind::Fuzzy(FuzzyKind::Lines))), "fuzzy lines");
    row(&mut t, KeyCode::Char('b'), Token::Direct(DirectKind::OpenPrompt(PromptKind::Fuzzy(FuzzyKind::Buffers))), "buffer picker");
    row(&mut t, KeyCode::Char('r'), Token::Direct(DirectKind::Rename), "rename (lsp)");
    row(&mut t, KeyCode::Char('a'), Token::Direct(DirectKind::CodeAction), "code action (lsp)");
    t
}

/// The keys that name a text object.
pub open spec fn object_table() -> Seq<BindingView> {
    seq![
        entry(KeyCode::Char('w'), Seq::empty(), Token::Object(Object::Word), "word"@),
        entry(KeyCode::Char('p'), Seq::empty(), Token::Object(Object::Paragraph), "paragraph"@),
        entry(KeyCode::Char('"'), Seq::empty(), Token::Object(Object::DoubleQuote), "double-quotes"@),
        entry(KeyCode::Char('\''), Seq::empty(), Token::Object(Object::SingleQuote), "single-quotes"@),
        entry(KeyCode::Char('('), seq![KeyCode::Char(')'), KeyCode::Char('b')], Token::Object(Object::Paren), "parens"@),
        entry(KeyCode::Char('{'), seq![KeyCode::Char('}'), KeyCode::Char('B')], Token::Object(Object::Brace), "braces"@),
        entry(KeyCode::Char('['), seq![KeyCode::Char(']')], Token::Object(Object::Bracket), "brackets"@),
        entry(KeyCode::Char('f'), Seq::empty(), Token::Object(Object::Function), "function (ts)"@),
        entry(KeyCode::Char('c'), Seq::empty(), Token::Object(Object::Class), "class (ts)"@),
        entry(KeyCode::Char('a'), Seq::empty(), Token::Object(Object::Parameter), "argument (ts)"@),
    ]
}

/// The keys that name a text object.
pub fn object_bindings() -> (r: Vec<Binding>)
    ensures
        bindings_of(r@) == object_table(),
{
    let mut t: Vec<Binding> = Vec::new();
    proof {
        assert(bindings_of(t@) =~= Seq::<BindingView>::empty());
    }
    row(&mut t, KeyCode::Char('w'), Token::Object(Object::Word), "word");
    row(&mut t, KeyCode::Char('p'), Token::Object(Object::Paragraph), "paragraph");
    row(&mut t, KeyCode::Char('"'), Token::Object(Object::DoubleQuote), "double-quotes");
    row(&mut t, KeyCode::Char('\''), Token::Object(Object::SingleQuote), "single-quotes");
    row_aliases(&mut t, KeyCode::Char('('), KeyCode::Char(')'), KeyCode::Char('b'), Token::Object(Object::Paren), "parens");
    row_aliases(&mut t, KeyCode::Char('{'), KeyCode::Char('}'), KeyCode::Char('B'), Token::Object(Object::Brace), "braces");
    row_alias(&mut t, KeyCode::Char('['), KeyCode::Char(']'), Token::Object(Object::Bracket), "brackets");
    row(&mut t, KeyCode::Char('f'), Token::Object(Object::Function), "function (ts)");
    row(&mut t, KeyCode::Char('c'), Token::Object(Object::Class), "class (ts)");
    row(&mut t, KeyCode::Char('a'), Token::Object(Object::Parameter), "argument (ts)");
    t
}

/// A key as the tables know it. With a character, Shift does not count: it
/// shows in the character already.
#[derive(Debug, Hash, PartialEq, Eq, Clone, Copy, Structural)]
pub struct KeySig {
    pub code: KeyCode,
    pub modifiers: KeyModifiers,
}

impl KeySig {
    pub open spec fn of(code: KeyCode, modifiers: KeyModifiers) -> KeySig {
        KeySig {
            code,
            modifiers: if code is Char {
                KeyModifiers { shift: false, ..modifiers }
            } else {
                modifiers
            },
        }
    }

    pub fn new(code: KeyCode, modifiers: KeyModifiers) -> (r: KeySig)
        ensures
            r == KeySig::of(code, modifiers),
    {
        let mut modifiers = modifiers;
        if let KeyCode::Char(_) = code {
            modifiers.shift = false;
        }
        KeySig { code, modifiers }
    }

    pub fn from_event(key: KeyEvent) -> (r: KeySig)
        ensures
            r == KeySig::of(key.code, key.modifiers),
    {
        KeySig::new(key.code, key.modifiers)
    }
}

/// The token bound to a key: the entry for it.
pub open spec fn bound(t: Seq<(KeySig, Token)>, sig: KeySig) -> Option<Token>
    decreases t.len(),
{
    if t.len() == 0 {
        None
    } else if t.last().0 == sig {
        Some(t.last().1)
    } else {
        bound(t.drop_last(), sig)
    }
}

/// A table of bindings that can change, with at most one entry for a key.
#[derive(Debug)]
pub struct KeyTable {
    pub entries: Vec<(KeySig, Token)>,
}

impl KeyTable {
    pub open spec fn wf(self) -> bool {
        forall|i: int, k: int| 0 <= i < k < self.entries.len() ==> self.entries@[i].0 != self.entries@[k].0
    }

    /// The token bound to a key.
    pub open spec fn at(self, sig: KeySig) -> Option<Token> {
        bound(self.entries@, sig)
    }

    pub fn new() -> (r: KeyTable)
        ensures
            r.wf(),
            forall|sig: KeySig| r.at(sig) is None,
    {
        KeyTable { entries: Vec::new() }
    }

    /// The token bound to a key.
    pub fn get(&self, sig: KeySig) -> (r: Option<Token>)
        ensures
            r == self.at(sig),
    {
        let mut i: usize = self.entries.len();
        proof {
            assert(self.entries@.take(i as int) =~= self.entries@);
        }
        while i > 0
            invariant
                i <= self.entries.len(),
                self.at(sig) == bound(self.entries@.take(i as int), sig),
            decreases i,
        {
            proof {
                assert(self.entries@.take(i as int).drop_last() =~= self.entries@.take(i - 1));
                assert(self.entries@.take(i as int).last() == self.entries@[i - 1]);
            }
            if self.entries[i - 1].0 == sig {
                return Some(self.entries[i - 1].1);
            }
            i = i - 1;
        }
        None
    }

    /// Binds a key, in place of what it was bound to.
    pub fn insert(&mut self, sig: KeySig, token: Token)
        requires
            old(self).wf(),
        ensures
            final(self).wf(),
            forall|s: KeySig|
                final(self).at(s) == if s == sig {
                    Some(token)
                } else {
                    old(self).at(s)
                },
    {
        let mut i: usize = 0;
        while i < self.entries.len()
            invariant
                i <= self.entries.len(),
                *self == *old(self),
                self.wf(),
                forall|k: int| 0 <= k < i ==> self.entries@[k].0 != sig,
            decreases self.entries.len() - i,
        {
            if self.entries[i].0 == sig {
                self.entries.set(i, (sig, token));
                proof {
                    assert forall|s: KeySig|
                        self.at(s) == if s == sig {
                            Some(token)
                        } else {
                            old(self).at(s)
                        } by {
                        lemma_bound_update(old(self).entries@, i as int, token, s);
                        assert(self.entries@ =~= old(self).entries@.update(i as int, (sig, token)));
                    }
                }
                return;
            }
            i = i + 1;
        }
        self.entries.push((sig, token));
        proof {
            assert(self.entries@.drop_last() =~= old(self).entries@);
        }
    }
}

/// Changing the entry of a key changes what that key is bound to, and nothing
/// else.
proof fn lemma_bound_update(t: Seq<(KeySig, Token)>, i: int, token: Token, s: KeySig)
    requires
        0 <= i < t.len(),
        forall|a: int, b: int| 0 <= a < b < t.len() ==> t[a].0 != t[b].0,
    ensures
        bound(t.update(i, (t[i].0, token)), s) == if s == t[i].0 {
            Some(token)
        } else {
            bound(t, s)
        },
    decreases t.len(),
{
    let u = t.update(i, (t[i].0, token));
    if i == t.len() - 1 {
        assert(u.drop_last() =~= t.drop_last());
    } else {
        assert(u.drop_last() =~= t.drop_last().update(i, (t[i].0, token)));
        assert(t.drop_last()[i] == t[i]);
        assert(t[i].0 != t[t.len() - 1].0);
        lemma_bound_update(t.drop_last(), i, token, s);
    }
}

/// The tables that customisation writes into: for a fresh command and after
/// the leader.
#[derive(Debug)]
pub struct Keymap {
    pub initial: KeyTable,
    pub leader: KeyTable,
}

pub open spec fn plain(code: KeyCode) -> KeySig {
    KeySig::of(code, KeyModifiers::spec_none())
}

pub open spec fn ctrl(c: char) -> KeySig {
    KeySig::of(KeyCode::Char(c), KeyModifiers { control: true, ..KeyModifiers::spec_none() })
}

/// The default motions.
pub open spec fn vim_moves() -> Seq<(KeySig, Token)> {
    seq![
        (plain(KeyCode::Char('h')), Token::Motion(MotionKind::Left)),
        (plain(KeyCode::Left), Token::Motion(MotionKind::Left)),
        (plain(KeyCode::Char('l')), Token::Motion(MotionKind::Right)),
        (plain(KeyCode::Right), Token::Motion(MotionKind::Right)),
        (plain(KeyCode::Char('j')), Token::Motion(MotionKind::Down)),
        (plain(KeyCode::Down), Token::Motion(MotionKind::Down)),
        (plain(KeyCode::Char('k')), Token::Motion(MotionKind::Up)),
        (plain(KeyCode::Up), Token::Motion(MotionKind::Up)),
        (plain(KeyCode::Char('$')), Token::Motion(MotionKind::LineEnd)),
        (plain(KeyCode::End), Token::Motion(MotionKind::LineEnd)),
        (plain(KeyCode::Home), Token::Motion(MotionKind::LineStart)),
        (plain(KeyCode::Char('^')), Token::Motion(MotionKind::LineFirstNonBlank)),
        (plain(KeyCode::Char('w')), Token::Motion(MotionKind::WordForward)),
        (plain(KeyCode::Char('b')), Token::Motion(MotionKind::WordBack)),
        (plain(KeyCode::Char('e')), Token::Motion(MotionKind::WordEnd)),
        (plain(KeyCode::Char('W')), Token::Motion(MotionKind::BigWordForward)),
        (plain(KeyCode::Char('B')), Token::Motion(MotionKind::BigWordBack)),
        (plain(KeyCode::Char('E')), Token::Motion(MotionKind::BigWordEnd)),
        (plain(KeyCode::Char('{')), Token::Motion(MotionKind::ParagraphBack)),
        (plain(KeyCode::Char('}')), Token::Motion(MotionKind::ParagraphForward)),
        (plain(KeyCode::Char('G')), Token::Motion(MotionKind::FileEnd)),
        (plain(KeyCode::Char('H')), Token::Motion(MotionKind::ViewportTop)),
        (plain(KeyCode::Char('M')), Token::Motion(MotionKind::ViewportMiddle)),
        (plain(KeyCode::Char('L')), Token::Motion(MotionKind::ViewportBottom)),
        (plain(KeyCode::Char('%')), Token::Motion(MotionKind::BracketMatch)),
        (plain(KeyCode::Char('*')), Token::Motion(MotionKind::SearchWordForward)),
        (plain(KeyCode::Char('#')), Token::Motion(MotionKind::SearchWordBack)),
        (plain(KeyCode::Char('n')), Token::Motion(MotionKind::SearchNext)),
        (plain(KeyCode::Char('N')), Token::Motion(MotionKind::SearchPrev)),
    ]
}

/// The default character searches and operators.
pub open spec fn vim_finds() -> Seq<(KeySig, Token)> {
    seq![
        (plain(KeyCode::Char('f')), Token::FindCharPrefix { forward: true, till: false }),
        (plain(KeyCode::Char('F')), Token::FindCharPrefix { forward: false, till: false }),
        (plain(KeyCode::Char('t')), Token::FindCharPrefix { forward: true, till: true }),
        (plain(KeyCode::Char('T')), Token::FindCharPrefix { forward: false, till: true }),
        (plain(KeyCode::Char(';')), Token::Motion(MotionKind::RepeatFind { reverse: false })),
        (plain(KeyCode::Char(',')), Token::Motion(MotionKind::RepeatFind { reverse: true })),
        (plain(KeyCode::Char('d')), Token::Op(Operator::Delete)),
        (plain(KeyCode::Char('y')), Token::Op(Operator::Yank)),
        (plain(KeyCode::Char('c')), Token::Op(Operator::Change)),
    ]
}

/// The default commands.
pub open spec fn vim_commands() -> Seq<(KeySig, Token)> {
    seq![
        (plain(KeyCode::Char('i')), Token::Direct(DirectKind::EnterMode(Mode::Insert))),
        (plain(KeyCode::Char('I')), Token::Direct(DirectKind::InsertAtLineStart)),
        (plain(KeyCode::Char('a')), Token::Direct(DirectKind::AppendAfterCursor)),
        (plain(KeyCode::Char('A')), Token::Direct(DirectKind::AppendAtLineEnd)),
        (plain(KeyCode::Char('v')), Token::Direct(DirectKind::EnterMode(Mode::Visual))),
        (plain(KeyCode::Char('V')), Token::Direct(DirectKind::EnterMode(Mode::VisualLine))),
        (plain(KeyCode::Char('o')), Token::Direct(DirectKind::OpenLineBelow)),
        (plain(KeyCode::Char('O')), Token::Direct(DirectKind::OpenLineAbove)),
        (plain(KeyCode::Char('x')), Token::Direct(DirectKind::DeleteCharUnderCursor)),
        (plain(KeyCode::Char('p')), Token::Direct(DirectKind::Paste)),
        (plain(KeyCode::Char('u')), Token::Direct(DirectKind::Undo)),
        (plain(KeyCode::Char('C')), Token::Direct(DirectKind::ChangeToEol)),
        (plain(KeyCode::Char('D')), Token::Direct(DirectKind::DeleteToEol)),
        (plain(KeyCode::Char('Y')), Token::Direct(DirectKind::YankLine)),
        (plain(KeyCode::Char('J')), Token::Direct(DirectKind::JoinLines)),
        (plain(KeyCode::Char('~')), Token::Direct(DirectKind::ToggleCase)),
        (plain(KeyCode::Char('s')), Token::Direct(DirectKind::SubstituteChar)),
        (plain(KeyCode::Char('S')), Token::Direct(DirectKind::SubstituteLine)),
        (plain(KeyCode::Char('r')), Token::ReplaceCharPrefix),
        (plain(KeyCode::Char('z')), Token::ZPrefix),
        (plain(KeyCode::Char(':')), Token::Direct(DirectKind::OpenPrompt(PromptKind::Command))),
        (plain(KeyCode::Char('/')), Token::Direct(DirectKind::OpenPrompt(PromptKind::Search { forward: true }))),
        (plain(KeyCode::Char('?')), Token::Direct(DirectKind::OpenPrompt(PromptKind::Search { forward: false }))),
        (plain(KeyCode::Char('g')), Token::GotoPrefix),
        (plain(KeyCode::Char(' ')), Token::LeaderPrefix),
    ]
}

/// The default bindings with Control.
pub open spec fn vim_ctrl() -> Seq<(KeySig, Token)> {
    seq![
        (ctrl('v'), Token::Direct(DirectKind::EnterMode(Mode::VisualBlock))),
        (ctrl('d'), Token::Motion(MotionKind::HalfPageDown)),
        (ctrl('u'), Token::Motion(MotionKind::HalfPageUp)),
        (ctrl('f'), Token::Motion(MotionKind::PageDown)),
        (ctrl('b'), Token::Motion(MotionKind::PageUp)),
    ]
}

/// The default bindings for a fresh command.
pub open spec fn vim_initial() -> Seq<(KeySig, Token)> {
    vim_moves() + vim_finds() + vim_commands() + vim_ctrl()
}

/// What the rows of a fixed table bind, aliases included.
pub open spec fn leader_bound(t: Seq<BindingView>, sig: KeySig, k: int) -> Option<Token>
    decreases k,
{
    if k <= 0 {
        None
    } else if sig == KeySig::of(sig.code, KeyModifiers::spec_none()) && t[k - 1].matched(sig.code) {
        Some(t[k - 1].token)
    } else {
        leader_bound(t, sig, k - 1)
    }
}

impl Keymap {
    pub open spec fn wf(self) -> bool {
        self.initial.wf() && self.leader.wf()
    }

    /// A keymap without bindings.
    pub fn empty() -> (r: Keymap)
        ensures
            r.wf(),
            forall|sig: KeySig| r.initial.at(sig) is None,
            forall|sig: KeySig| r.leader.at(sig) is None,
    {
        Keymap { initial: KeyTable::new(), leader: KeyTable::new() }
    }

    /// The default bindings.
    pub fn vim_default() -> (r: Keymap)
        ensures
            r.wf(),
            forall|sig: KeySig| r.initial.at(sig) == bound(vim_initial(), sig),
            forall|sig: KeySig| r.leader.at(sig) == leader_bound(leader_table(), sig, leader_table().len() as int),
    {
        let mut m = Keymap::empty();
        m.install_vim_defaults();
        m
    }

    /// Binds a key for a fresh command.
    pub fn bind_initial(&mut self, sig: KeySig, token: Token)
        requires
            old(self).wf(),
        ensures
            final(self).wf(),
            final(self).leader == old(self).leader,
            forall|s: KeySig|
                final(self).initial.at(s) == if s == sig {
                    Some(token)
                } else {
                    old(self).initial.at(s)
                },
    {
        self.initial.insert(sig, token);
    }

    /// Binds a key after the leader.
    pub fn bind_leader(&mut self, sig: KeySig, token: Token)
        requires
            old(self).wf(),
        ensures
            final(self).wf(),
            final(self).initial == old(self).initial,
            forall|s: KeySig|
                final(self).leader.at(s) == if s == sig {
                    Some(token)
                } else {
                    old(self).leader.at(s)
                },
    {
        self.leader.insert(sig, token);
    }

    /// Adds the default bindings to what is bound already.
    pub fn install_vim_defaults(&mut self)
        requires
            old(self).wf(),
        ensures
            final(self).wf(),
            forall|sig: KeySig|
                final(self).initial.at(sig) == match bound(vim_initial(), sig) {
                    Some(t) => Some(t),
                    None => old(self).initial.at(sig),
                },
            forall|sig: KeySig|
                final(self).leader.at(sig) == match leader_bound(leader_table(), sig, leader_table().len() as int) {
                    Some(t) => Some(t),
                    None => old(self).leader.at(sig),
                },
    {
        self.install_initial();
        self.install_leader();
    }
}

fn vim_moves_entries() -> (r: Vec<(KeySig, Token)>)
    ensures
        r@ == vim_moves(),
{
    let none = KeyModifiers::none();
    let mut t: Vec<(KeySig, Token)> = Vec::new();
    t.push((KeySig::new(KeyCode::Char('h'), none), Token::Motion(MotionKind::Left)));
    t.push((KeySig::new(KeyCode::Left, none), Token::Motion(MotionKind::Left)));
    t.push((KeySig::new(KeyCode::Char('l'), none), Token::Motion(MotionKind::Right)));
    t.push((KeySig::new(KeyCode::Right, none), Token::Motion(MotionKind::Right)));
    t.push((KeySig::new(KeyCode::Char('j'), none), Token::Motion(MotionKind::Down)));
    t.push((KeySig::new(KeyCode::Down, none), Token::Motion(MotionKind::Down)));
    t.push((KeySig::new(KeyCode::Char('k'), none), Token::Motion(MotionKind::Up)));
    t.push((KeySig::new(KeyCode::Up, none), Token::Motion(MotionKind::Up)));
    t.push((KeySig::new(KeyCode::Char('$'), none), Token::Motion(MotionKind::LineEnd)));
    t.push((KeySig::new(KeyCode::End, none), Token::Motion(MotionKind::LineEnd)));
    t.push((KeySig::new(KeyCode::Home, none), Token::Motion(MotionKind::LineStart)));
    t.push((KeySig::new(KeyCode::Char('^'), none), Token::Motion(MotionKind::LineFirstNonBlank)));
    t.push((KeySig::new(KeyCode::Char('w'), none), Token::Motion(MotionKind::WordForward)));
    t.push((KeySig::new(KeyCode::Char('b'), none), Token::Motion(MotionKind::WordBack)));
    t.push((KeySig::new(KeyCode::Char('e'), none), Token::Motion(MotionKind::WordEnd)));
    t.push((KeySig::new(KeyCode::Char('W'), none), Token::Motion(MotionKind::BigWordForward)));
    t.push((KeySig::new(KeyCode::Char('B'), none), Token::Motion(MotionKind::BigWordBack)));
    t.push((KeySig::new(KeyCode::Char('E'), none), Token::Motion(MotionKind::BigWordEnd)));
    t.push((KeySig::new(KeyCode::Char('{'), none), Token::Motion(MotionKind::ParagraphBack)));
    t.push((KeySig::new(KeyCode::Char('}'), none), Token::Motion(MotionKind::ParagraphForward)));
    t.push((KeySig::new(KeyCode::Char('G'), none), Token::Motion(MotionKind::FileEnd)));
    t.push((KeySig::new(KeyCode::Char('H'), none), Token::Motion(MotionKind::ViewportTop)));
    t.push((KeySig::new(KeyCode::Char('M'), none), Token::Motion(MotionKind::ViewportMiddle)));
    t.push((KeySig::new(KeyCode::Char('L'), none), Token::Motion(MotionKind::ViewportBottom)));
    t.push((KeySig::new(KeyCode::Char('%'), none), Token::Motion(MotionKind::BracketMatch)));
    t.push((KeySig::new(KeyCode::Char('*'), none), Token::Motion(MotionKind::SearchWordForward)));
    t.push((KeySig::new(KeyCode::Char('#'), none), Token::Motion(MotionKind::SearchWordBack)));
    t.push((KeySig::new(KeyCode::Char('n'), none), Token::Motion(MotionKind::SearchNext)));
    t.push((KeySig::new(KeyCode::Char('N'), none), Token::Motion(MotionKind::SearchPrev)));
    t
}

fn vim_finds_entries() -> (r: Vec<(KeySig, Token)>)
    ensures
        r@ == vim_finds(),
{
    let none = KeyModifiers::none();
    let mut t: Vec<(KeySig, Token)> = Vec::new();
    t.push((KeySig::new(KeyCode::Char('f'), none), Token::FindCharPrefix { forward: true, till: false }));
    t.push((KeySig::new(KeyCode::Char('F'), none), Token::FindCharPrefix { forward: false, till: false }));
    t.push((KeySig::new(KeyCode::Char('t'), none), Token::FindCharPrefix { forward: true, till: true }));
    t.push((KeySig::new(KeyCode::Char('T'), none), Token::FindCharPrefix { forward: false, till: true }));
    t.push((KeySig::new(KeyCode::Char(';'), none), Token::Motion(MotionKind::RepeatFind { reverse: false })));
    t.push((KeySig::new(KeyCode::Char(','), none), Token::Motion(MotionKind::RepeatFind { reverse: true })));
    t.push((KeySig::new(KeyCode::Char('d'), none), Token::Op(Operator::Delete)));
    t.push((KeySig::new(KeyCode::Char('y'), none), Token::Op(Operator::Yank)));
    t.push((KeySig::new(KeyCode::Char('c'), none), Token::Op(Operator::Change)));
    t
}

fn vim_commands_entries() -> (r: Vec<(KeySig, Token)>)
    ensures
        r@ == vim_commands(),
{
    let none = KeyModifiers::none();
    let mut t: Vec<(KeySig, Token)> = Vec::new();
    t.push((KeySig::new(KeyCode::Char('i'), none), Token::Direct(DirectKind::EnterMode(Mode::Insert))));
    t.push((KeySig::new(KeyCode::Char('I'), none), Token::Direct(DirectKind::InsertAtLineStart)));
    t.push((KeySig::new(KeyCode::Char('a'), none), Token::Direct(DirectKind::AppendAfterCursor)));
    t.push((KeySig::new(KeyCode::Char('A'), none), Token::Direct(DirectKind::AppendAtLineEnd)));
    t.push((KeySig::new(KeyCode::Char('v'), none), Token::Direct(DirectKind::EnterMode(Mode::Visual))));
    t.push((KeySig::new(KeyCode::Char('V'), none), Token::Direct(DirectKind::EnterMode(Mode::VisualLine))));
    t.push((KeySig::new(KeyCode::Char('o'), none), Token::Direct(DirectKind::OpenLineBelow)));
    t.push((KeySig::new(KeyCode::Char('O'), none), Token::Direct(DirectKind::OpenLineAbove)));
    t.push((KeySig::new(KeyCode::Char('x'), none), Token::Direct(DirectKind::DeleteCharUnderCursor)));
    t.push((KeySig::new(KeyCode::Char('p'), none), Token::Direct(DirectKind::Paste)));
    t.push((KeySig::new(KeyCode::Char('u'), none), Token::Direct(DirectKind::Undo)));
    t.push((KeySig::new(KeyCode::Char('C'), none), Token::Direct(DirectKind::ChangeToEol)));
    t.push((KeySig::new(KeyCode::Char('D'), none), Token::Direct(DirectKind::DeleteToEol)));
    t.push((KeySig::new(KeyCode::Char('Y'), none), Token::Direct(DirectKind::YankLine)));
    t.push((KeySig::new(KeyCode::Char('J'), none), Token::Direct(DirectKind::JoinLines)));
    t.push((KeySig::new(KeyCode::Char('~'), none), Token::Direct(DirectKind::ToggleCase)));
    t.push((KeySig::new(KeyCode::Char('s'), none), Token::Direct(DirectKind::SubstituteChar)));
    t.push((KeySig::new(KeyCode::Char('S'), none), Token::Direct(DirectKind::SubstituteLine)));
    t.push((KeySig::new(KeyCode::Char('r'), none), Token::ReplaceCharPrefix));
    t.push((KeySig::new(KeyCode::Char('z'), none), Token::ZPrefix));
    t.push((KeySig::new(KeyCode::Char(':'), none), Token::Direct(DirectKind::OpenPrompt(PromptKind::Command))));
    t.push((KeySig::new(KeyCode::Char('/'), none), Token::Direct(DirectKind::OpenPrompt(PromptKind::Search { forward: true }))));
    t.push((KeySig::new(KeyCode::Char('?'), none), Token::Direct(DirectKind::OpenPrompt(PromptKind::Search { forward: false }))));
    t.push((KeySig::new(KeyCode::Char('g'), none), Token::GotoPrefix));
    t.push((KeySig::new(KeyCode::Char(' '), none), Token::LeaderPrefix));
    t
}

fn vim_ctrl_entries() -> (r: Vec<(KeySig, Token)>)
    ensures
        r@ == vim_ctrl(),
{
    let ctrl = KeyModifiers::ctrl();
    let mut t: Vec<(KeySig, Token)> = Vec::new();
    t.push((KeySig::new(KeyCode::Char('v'), ctrl), Token::Direct(DirectKind::EnterMode(Mode::VisualBlock))));
    t.push((KeySig::new(KeyCode::Char('d'), ctrl), Token::Motion(MotionKind::HalfPageDown)));
    t.push((KeySig::new(KeyCode::Char('u'), ctrl), Token::Motion(MotionKind::HalfPageUp)));
    t.push((KeySig::new(KeyCode::Char('f'), ctrl), Token::Motion(MotionKind::PageDown)));
    t.push((KeySig::new(KeyCode::Char('b'), ctrl), Token::Motion(MotionKind::PageUp)));
    t
}

/// The default bindings for a fresh command.
fn vim_initial_entries() -> (r: Vec<(KeySig, Token)>)
    ensures
        r@ == vim_initial(),
{
    let mut t = vim_moves_entries();
    let mut finds = vim_finds_entries();
    let mut commands = vim_commands_entries();
    let mut control = vim_ctrl_entries();
    t.append(&mut finds);
    t.append(&mut commands);
    t.append(&mut control);
    t
}

impl Keymap {
    fn install_initial(&mut self)
        requires
            old(self).wf(),
        ensures
            final(self).wf(),
            final(self).leader == old(self).leader,
            forall|sig: KeySig|
                final(self).initial.at(sig) == match bound(vim_initial(), sig) {
                    Some(t) => Some(t),
                    None => old(self).initial.at(sig),
                },
    {
        let t = vim_initial_entries();
        let mut i: usize = 0;
        proof {
            assert(t@.take(0) =~= Seq::<(KeySig, Token)>::empty());
        }
        while i < t.len()
            invariant
                i <= t.len(),
                self.wf(),
                self.leader == old(self).leader,
                forall|sig: KeySig|
                    #[trigger] self.initial.at(sig) == match bound(t@.take(i as int), sig) {
                        Some(t) => Some(t),
                        None => old(self).initial.at(sig),
                    },
            decreases t.len() - i,
        {
            let ghost before = self.initial;
            let (sig, token) = t[i];
            self.bind_initial(sig, token);
            proof {
                assert(t@.take(i + 1).drop_last() =~= t@.take(i as int));
                assert(t@.take(i + 1).last() == t@[i as int]);
                assert forall|s: KeySig|
                    #[trigger] self.initial.at(s) == match bound(t@.take(i + 1), s) {
                        Some(t) => Some(t),
                        None => old(self).initial.at(s),
                    } by {
                    let b = before.at(s);
                }
            }
            i = i + 1;
        }
        proof {
            assert(t@.take(i as int) =~= t@);
        }
    }

    fn install_leader(&mut self)
        requires
            old(self).wf(),
        ensures
            final(self).wf(),
            final(self).initial == old(self).initial,
            forall|sig: KeySig|
                final(self).leader.at(sig) == match leader_bound(leader_table(), sig, leader_table().len() as int) {
                    Some(t) => Some(t),
                    None => old(self).leader.at(sig),
                },
    {
        let t = leader_bindings();
        let none = KeyModifiers::none();
        let ghost rows = leader_table();
        let mut i: usize = 0;
        while i < t.len()
            invariant
                i <= t.len(),
                none == KeyModifiers::spec_none(),
                rows == leader_table(),
                bindings_of(t@) == rows,
                self.wf(),
                self.initial == old(self).initial,
                forall|sig: KeySig|
                    #[trigger] self.leader.at(sig) == match leader_bound(rows, sig, i as int) {
                        Some(t) => Some(t),
                        None => old(self).leader.at(sig),
                    },
            decreases t.len() - i,
        {
            let ghost before = self.leader;
            let b = &t[i];
            proof {
                assert(rows[i as int] == b@);
            }
            self.bind_leader(KeySig::new(b.key, none), b.token);
            let mut k: usize = 0;
            while k < b.aliases.len()
                invariant
                    k <= b.aliases.len(),
                    none == KeyModifiers::spec_none(),
                    self.wf(),
                    self.initial == old(self).initial,
                    forall|sig: KeySig|
                        #[trigger] self.leader.at(sig) == if sig == KeySig::of(sig.code, KeyModifiers::spec_none())
                            && (sig.code == b.key || b.aliases@.take(k as int).contains(sig.code)) {
                            Some(b.token)
                        } else {
                            before.at(sig)
                        },
                decreases b.aliases.len() - k,
            {
                let ghost mid = self.leader;
                let a = b.aliases[k];
                self.bind_leader(KeySig::new(a, none), b.token);
                proof {
                    let s0 = b.aliases@.take(k as int);
                    let s1 = b.aliases@.take(k + 1);
                    assert(s1 =~= s0.push(a));
                    assert forall|sig: KeySig|
                        #[trigger] self.leader.at(sig) == if sig == KeySig::of(sig.code, KeyModifiers::spec_none())
                            && (sig.code == b.key || s1.contains(sig.code)) {
                            Some(b.token)
                        } else {
                            before.at(sig)
                        } by {
                        let m = mid.at(sig);
                        if s0.contains(sig.code) {
                            let q = choose|q: int| 0 <= q < s0.len() && s0[q] == sig.code;
                            assert(s1[q] == sig.code);
                        }
                        if sig.code == a {
                            assert(s1[k as int] == a);
                        }
                        if s1.contains(sig.code) && sig.code != a {
                            let q = choose|q: int| 0 <= q < s1.len() && s1[q] == sig.code;
                            assert(s0[q] == sig.code);
                        }
                    }
                }
                k = k + 1;
            }
            proof {
                assert(b.aliases@.take(k as int) =~= b.aliases@);
                assert forall|sig: KeySig|
                    #[trigger] self.leader.at(sig) == match leader_bound(rows, sig, i + 1) {
                        Some(t) => Some(t),
                        None => old(self).leader.at(sig),
                    } by {
                    let m = before.at(sig);
                }
            }
            i = i + 1;
        }
    }
}

} // verus!
