//! The line of input over the text: commands, searches and pickers.
use vstd::prelude::*;
use crate::action::PromptKind;
use crate::app::eval::run::{trim, trimmed};
use crate::finder::listing::{sorted_like, Listing};
use crate::finder::{Finder, FuzzyKind};
use crate::keys::{KeyCode, KeyEvent};
use crate::text::{chars_of, string_slice, text_of};

verus! {

/// What is typed while a prompt is open.
#[derive(Debug)]
pub enum Prompt {
    /// There is none.
    Closed,
    Command(String),
    Search { forward: bool, query: String },
    Fuzzy(Finder),
}

/// What comes of a key in a prompt.
#[derive(Debug)]
pub enum PromptOutcome<S = String> {
    Nothing,
    Cancelled,
    RunCommand(S),
    Search { forward: bool, query: S },
    /// A file, relative to the directory in which the editor was started.
    OpenRelativeFile(S),
    GotoLine(usize),
    /// A row of the list of buffers.
    OpenBuffer(usize),
    /// A row of the list of places.
    JumpToLocation(usize),
}

impl View for PromptOutcome {
    type V = PromptOutcome<Seq<char>>;

    open spec fn view(&self) -> PromptOutcome<Seq<char>> {
        match self {
            PromptOutcome::Nothing => PromptOutcome::Nothing,
            PromptOutcome::Cancelled => PromptOutcome::Cancelled,
            PromptOutcome::RunCommand(s) => PromptOutcome::RunCommand(s@),
            PromptOutcome::Search { forward, query } => PromptOutcome::Search { forward: *forward, query: query@ },
            PromptOutcome::OpenRelativeFile(s) => PromptOutcome::OpenRelativeFile(s@),
            PromptOutcome::GotoLine(n) => PromptOutcome::GotoLine(*n),
            PromptOutcome::OpenBuffer(n) => PromptOutcome::OpenBuffer(*n),
            PromptOutcome::JumpToLocation(n) => PromptOutcome::JumpToLocation(*n),
        }
    }
}

/// A line of text after a key press: characters are added at its end and
/// taken away from there.
pub open spec fn line_after(s: Seq<char>, code: KeyCode) -> Seq<char> {
    match code {
        KeyCode::Backspace => if s.len() == 0 {
            s
        } else {
            s.drop_last()
        },
        KeyCode::Char(c) => s.push(c),
        _ => s,
    }
}

fn edit_line(s: &String, code: KeyCode) -> (r: String)
    ensures
        r@ == line_after(s@, code),
{
    match code {
        KeyCode::Backspace => {
            let cs = chars_of(s.as_str());
            if cs.len() == 0 {
                return s.clone();
            }
            let r = string_slice(&cs, 0, cs.len() - 1);
            proof {
                assert(r@ =~= s@.drop_last());
            }
            r
        },
        KeyCode::Char(c) => {
            let mut r = s.clone();
            r.push(c);
            r
        },
        _ => s.clone(),
    }
}

/// Whether a key moves the selection of a picker, and down.
pub open spec fn picker_move(key: KeyEvent) -> Option<bool> {
    match key.code {
        KeyCode::Up => Some(false),
        KeyCode::Down => Some(true),
        KeyCode::Char(c) => if key.modifiers.control && c == 'n' {
            Some(true)
        } else if key.modifiers.control && c == 'p' {
            Some(false)
        } else {
            None
        },
        _ => None,
    }
}

impl Prompt {
    /// A picker's list is the one its query asks for.
    pub open spec fn wf(self) -> bool {
        match self {
            Prompt::Fuzzy(f) => f.wf(),
            _ => true,
        }
    }

    /// What entering the prompt gives.
    pub open spec fn submitted(self) -> PromptOutcome<Seq<char>> {
        match self {
            Prompt::Closed => PromptOutcome::Nothing,
            Prompt::Command(s) => PromptOutcome::RunCommand(trimmed(s@)),
            Prompt::Search { forward, query } => PromptOutcome::Search { forward, query: query@ },
            Prompt::Fuzzy(f) => if f.selected >= f.matches@.len() {
                PromptOutcome::Nothing
            } else {
                let i = f.matches@[f.selected as int].idx;
                match f.kind {
                    FuzzyKind::Files { ignore } => if i < f.items@.len() {
                        PromptOutcome::OpenRelativeFile(f.items@[i as int]@)
                    } else {
                        PromptOutcome::Nothing
                    },
                    FuzzyKind::Lines => PromptOutcome::GotoLine(i),
                    FuzzyKind::Buffers => PromptOutcome::OpenBuffer(i),
                    FuzzyKind::Locations => PromptOutcome::JumpToLocation(i),
                }
            },
        }
    }

    /// What becomes of the prompt when a key goes to its line.
    pub open spec fn typed(self, key: KeyEvent, r: Prompt) -> bool {
        match (self, r) {
            (Prompt::Closed, Prompt::Closed) => true,
            (Prompt::Command(s), Prompt::Command(t)) => t@ == line_after(s@, key.code),
            (Prompt::Search { forward, query }, Prompt::Search { forward: g, query: t }) => g == forward && t@
                == line_after(query@, key.code),
            (Prompt::Fuzzy(f), Prompt::Fuzzy(g)) => {
                &&& g.kind == f.kind
                &&& g.items == f.items
                &&& g.wf()
                &&& match picker_move(key) {
                    Some(down) => g == (Finder { selected: g.selected, ..f }) && g.selected == if down
                        && f.selected + 1 < f.matches@.len() {
                        f.selected + 1
                    } else if !down && f.selected > 0 {
                        f.selected - 1
                    } else {
                        f.selected as int
                    },
                    None => (g.query@, g.cursor as int) == crate::finder::fuzzy::line_edit(
                        f.query@,
                        f.cursor as int,
                        key,
                    ),
                }
            },
            _ => false,
        }
    }

    pub fn is_open(&self) -> (r: bool)
        ensures
            r == !(*self is Closed),
    {
        !matches!(self, Prompt::Closed)
    }

    /// The prompt of a kind. The list of a picker comes from outside, but for
    /// the lines of the buffer. Places are listed when a server names them, not
    /// by a key.
    pub fn open(kind: PromptKind, lines: &Vec<String>, items: Vec<String>, files: &Listing) -> (r: Prompt)
        ensures
            r.wf(),
            match kind {
                PromptKind::Command => r matches Prompt::Command(s) && s@.len() == 0,
                PromptKind::Search { forward } => r matches Prompt::Search { forward: f, query } && f == forward
                    && query@.len() == 0,
                PromptKind::Fuzzy(FuzzyKind::Files { ignore }) => r matches Prompt::Fuzzy(f) && f.fresh(
                    FuzzyKind::Files { ignore },
                    text_of(f.items@),
                ) && sorted_like(text_of(f.items@), files.paths(ignore)),
                PromptKind::Fuzzy(FuzzyKind::Lines) => r matches Prompt::Fuzzy(f) && f.fresh(
                    FuzzyKind::Lines,
                    text_of(lines@),
                ),
                PromptKind::Fuzzy(FuzzyKind::Buffers) => r matches Prompt::Fuzzy(f) && f.fresh(
                    FuzzyKind::Buffers,
                    text_of(items@),
                ),
                PromptKind::Fuzzy(FuzzyKind::Locations) => r is Closed,
            },
    {
        proof {
            reveal_strlit("");
        }
        match kind {
            PromptKind::Command => Prompt::Command(String::new()),
            PromptKind::Search { forward } => Prompt::Search { forward, query: String::new() },
            PromptKind::Fuzzy(FuzzyKind::Files { ignore }) => Prompt::Fuzzy(Finder::files(files, ignore)),
            PromptKind::Fuzzy(FuzzyKind::Lines) => Prompt::Fuzzy(Finder::lines(lines)),
            PromptKind::Fuzzy(FuzzyKind::Buffers) => Prompt::Fuzzy(Finder::buffers(items)),
            PromptKind::Fuzzy(FuzzyKind::Locations) => Prompt::Closed,
        }
    }

    /// Enters the prompt.
    pub fn submit(&self) -> (r: PromptOutcome)
        ensures
            r@ == self.submitted(),
    {
        match self {
            Prompt::Closed => PromptOutcome::Nothing,
            Prompt::Command(s) => PromptOutcome::RunCommand(trim(s.as_str())),
            Prompt::Search { forward, query } => PromptOutcome::Search { forward: *forward, query: query.clone() },
            Prompt::Fuzzy(f) => {
                let i = match f.selection() {
                    Some(m) => m.idx,
                    None => return PromptOutcome::Nothing,
                };
                match f.kind {
                    FuzzyKind::Files { .. } => {
                        if i < f.items.len() {
                            PromptOutcome::OpenRelativeFile(f.items[i].clone())
                        } else {
                            PromptOutcome::Nothing
                        }
                    },
                    FuzzyKind::Lines => PromptOutcome::GotoLine(i),
                    FuzzyKind::Buffers => PromptOutcome::OpenBuffer(i),
                    FuzzyKind::Locations => PromptOutcome::JumpToLocation(i),
                }
            },
        }
    }

    /// Takes a key. Escape and Enter close the prompt.
    pub fn handle_key(&mut self, key: KeyEvent) -> (r: PromptOutcome)
        requires
            old(self).wf(),
        ensures
            final(self).wf(),
            match key.code {
                KeyCode::Esc => *final(self) is Closed && r@ == PromptOutcome::<Seq<char>>::Cancelled,
                KeyCode::Enter => *final(self) is Closed && r@ == old(self).submitted(),
                _ => old(self).typed(key, *final(self)) && r@ == PromptOutcome::<Seq<char>>::Nothing,
            },
    {
        match key.code {
            KeyCode::Esc => {
                *self = Prompt::Closed;
                return PromptOutcome::Cancelled;
            },
            KeyCode::Enter => {
                let r = self.submit();
                *self = Prompt::Closed;
                return r;
            },
            _ => {},
        }
        let mut now = Prompt::Closed;
        std::mem::swap(self, &mut now);
        *self = match now {
            Prompt::Closed => Prompt::Closed,
            Prompt::Command(s) => Prompt::Command(edit_line(&s, key.code)),
            Prompt::Search { forward, query } => Prompt::Search { forward, query: edit_line(&query, key.code) },
            Prompt::Fuzzy(f) => {
                let mut f = f;
                let down = match key.code {
                    KeyCode::Up => Some(false),
                    KeyCode::Down => Some(true),
                    KeyCode::Char('n') => if key.modifiers.control { Some(true) } else { None },
                    KeyCode::Char('p') => if key.modifiers.control { Some(false) } else { None },
                    _ => None,
                };
                match down {
                    Some(true) => f.next(),
                    Some(false) => f.prev(),
                    None => f.apply_line_key(key),
                }
                Prompt::Fuzzy(f)
            },
        };
        PromptOutcome::Nothing
    }
}

} // verus!
