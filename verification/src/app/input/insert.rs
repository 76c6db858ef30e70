//! Keys in insert mode.
use vstd::prelude::*;
use crate::action::{InsertKey, InsertRecording, LastChange};
use crate::app::completion::{ident_char, ident_start, identifier_prefix_start, is_ident_continue};
use crate::app::input::fan_out::{fan_out_backspace, fan_out_insert_char, rows_exist};
use crate::app::lsp_request::Resolve;
use crate::app::status::Level;
use crate::app::{App, Desk, Menu};
use crate::editor::{Cursor, Doc};
use crate::keys::{KeyCode, KeyEvent};
use crate::mode::Mode;

verus! {

/// What typing asks of the language servers.
#[derive(Debug)]
pub enum Ask<S = String> {
    Nothing,
    /// The completions at the cursor, of the word that starts there.
    Completion { cursor: Cursor, prefix_start: Cursor },
    /// The rest of an item that was taken over.
    Resolve(Resolve<S>),
}

impl View for Ask {
    type V = Ask<Seq<char>>;

    open spec fn view(&self) -> Ask<Seq<char>> {
        match self {
            Ask::Nothing => Ask::Nothing,
            Ask::Completion { cursor, prefix_start } => Ask::Completion {
                cursor: *cursor,
                prefix_start: *prefix_start,
            },
            Ask::Resolve(r) => Ask::Resolve(r@),
        }
    }
}

/// What a key does to an open completion menu.
#[derive(Debug, Clone, Copy, PartialEq, Eq, Structural)]
pub enum MenuKey {
    Close,
    Up,
    Down,
    Accept,
}

/// What a key does to an open completion menu; `None` means that it goes to
/// the text.
pub open spec fn menu_key(key: KeyEvent) -> Option<MenuKey> {
    match key.code {
        KeyCode::Esc => Some(MenuKey::Close),
        KeyCode::Up => Some(MenuKey::Up),
        KeyCode::Down => Some(MenuKey::Down),
        KeyCode::Tab => Some(MenuKey::Down),
        KeyCode::BackTab => Some(MenuKey::Up),
        KeyCode::Enter => Some(MenuKey::Accept),
        KeyCode::Char(c) => if key.modifiers.control && c == 'p' {
            Some(MenuKey::Up)
        } else if key.modifiers.control && c == 'n' {
            Some(MenuKey::Down)
        } else {
            None
        },
        _ => None,
    }
}

/// What a key does to an open completion menu.
pub fn read_menu_key(key: KeyEvent) -> (r: Option<MenuKey>)
    ensures
        r == menu_key(key),
{
    match key.code {
        KeyCode::Esc => Some(MenuKey::Close),
        KeyCode::Up | KeyCode::BackTab => Some(MenuKey::Up),
        KeyCode::Down | KeyCode::Tab => Some(MenuKey::Down),
        KeyCode::Enter => Some(MenuKey::Accept),
        KeyCode::Char(c) => {
            if key.modifiers.control && c == 'p' {
                Some(MenuKey::Up)
            } else if key.modifiers.control && c == 'n' {
                Some(MenuKey::Down)
            } else {
                None
            }
        },
        _ => None,
    }
}

/// The number of spaces from a column to the next tab stop.
pub open spec fn to_tab_stop(col: int, width: int) -> int {
    let stop = if width > 1 {
        width
    } else {
        1
    };
    stop - col % stop
}

impl Doc {
    /// So many spaces typed at every cursor.
    pub open spec fn fan_spaces(self, n: int) -> Doc
        decreases n,
    {
        if n <= 0 {
            self
        } else {
            self.fan_spaces(n - 1).fan_insert(' ')
        }
    }
}

/// A key added to a recording that is going on, so many times.
pub open spec fn recorded(r: Option<InsertRecording<Seq<InsertKey>>>, k: InsertKey, n: int) -> Option<
    InsertRecording<Seq<InsertKey>>,
>
    decreases n,
{
    if n <= 0 {
        r
    } else {
        match recorded(r, k, n - 1) {
            Some(x) => Some(InsertRecording { trigger: x.trigger, keys: x.keys.push(k) }),
            None => None,
        }
    }
}

impl Desk {
    /// Adds a key to a recording that is going on.
    #[verifier::opaque]
    pub open spec fn noting(self, k: InsertKey) -> Desk {
        Desk { recording: recorded(self.recording, k, 1), ..self }
    }

    /// Ends a recording: what was typed is the last change.
    pub open spec fn recording_ended(self) -> Desk {
        match self.recording {
            Some(r) => Desk {
                recording: None,
                last_change: Some(LastChange::Insert { trigger: r.trigger, keys: r.keys }),
                ..self
            },
            None => self,
        }
    }

    /// Asks for completions, where there is a server to ask.
    pub open spec fn ask_completion(self, has_lsp: bool) -> (Desk, Ask<Seq<char>>) {
        if has_lsp {
            let d = self.doc;
            let start = ident_start(d.line(), d.cursor.col as int);
            (
                self,
                Ask::Completion {
                    cursor: d.cursor,
                    prefix_start: Cursor { row: d.cursor.row, col: start as usize },
                },
            )
        } else {
            (self.saying(Level::Error, "no LSP for this buffer"@), Ask::Nothing)
        }
    }

    /// A typed character. One of an identifier asks for completions where no
    /// menu is open.
    #[verifier::opaque]
    pub open spec fn type_char(self, c: char, has_lsp: bool) -> (Desk, Ask<Seq<char>>) {
        let d = self.with_doc(self.doc.fan_insert(c)).noting(InsertKey::Char(c)).menu_updated();
        if d.menu is None && has_lsp && ident_char(c) {
            d.ask_completion(has_lsp)
        } else {
            (d, Ask::Nothing)
        }
    }

    /// The tab key: a tab, or spaces up to the next tab stop.
    #[verifier::opaque]
    pub open spec fn type_tab(self) -> Desk {
        let s = self.indent();
        if s.use_tabs {
            self.with_doc(self.doc.fan_insert('\t')).noting(InsertKey::Char('\t')).menu_updated()
        } else {
            let n = to_tab_stop(self.doc.cursor.col as int, s.width as int);
            Desk {
                doc: self.doc.fan_spaces(n),
                recording: recorded(self.recording, InsertKey::Char(' '), n),
                ..self
            }.menu_updated()
        }
    }

    /// A movement out of the recorded typing: the recording is dropped.
    pub open spec fn stray(self, doc: Doc) -> Desk {
        Desk { doc, recording: None, menu: None, ..self }
    }

    /// A key that goes to the text.
    pub open spec fn text_key(self, key: KeyEvent, has_lsp: bool) -> (Desk, Ask<Seq<char>>) {
        let d = self.doc;
        match key.code {
            KeyCode::Char(c) => if key.modifiers.control {
                if c == ' ' {
                    self.ask_completion(has_lsp)
                } else {
                    (self, Ask::Nothing)
                }
            } else {
                self.type_char(c, has_lsp)
            },
            KeyCode::Esc => (self.recording_ended().entered(Mode::Normal), Ask::Nothing),
            KeyCode::Enter => (
                Desk { menu: None, ..self.with_doc(d.insert_newline()).noting(InsertKey::Newline) },
                Ask::Nothing,
            ),
            KeyCode::Backspace => (
                self.with_doc(d.fan_erase()).noting(InsertKey::Backspace).menu_updated(),
                Ask::Nothing,
            ),
            KeyCode::Tab => (self.type_tab(), Ask::Nothing),
            KeyCode::Left => (self.stray(d.left()), Ask::Nothing),
            KeyCode::Right => (self.stray(d.right(true)), Ask::Nothing),
            KeyCode::Up => (self.stray(d.up()), Ask::Nothing),
            KeyCode::Down => (self.stray(d.down()), Ask::Nothing),
            _ => (self, Ask::Nothing),
        }
    }

    /// A key that goes to the menu.
    pub open spec fn menu_pressed(self, m: Menu, key: MenuKey, has_lsp: bool) -> (Desk, Ask<Seq<char>>) {
        match key {
            MenuKey::Close => (Desk { menu: None, ..self }, Ask::Nothing),
            MenuKey::Up => (Desk { menu: Some(m.moved(-1)), ..self }, Ask::Nothing),
            MenuKey::Down => (Desk { menu: Some(m.moved(1)), ..self }, Ask::Nothing),
            MenuKey::Accept => {
                let (d, r) = self.accepted();
                match r {
                    Some(r) => (
                        d,
                        if has_lsp {
                            Ask::Resolve(r)
                        } else {
                            Ask::Nothing
                        },
                    ),
                    None => (d, Ask::Nothing),
                }
            },
        }
    }

    /// A key that types at every cursor needs the rows of the cursors.
    pub open spec fn can_type(self, key: KeyEvent) -> bool {
        match key.code {
            KeyCode::Char(_) => !key.modifiers.control ==> rows_exist(self.doc.text, self.doc.extra),
            KeyCode::Tab | KeyCode::Backspace => rows_exist(self.doc.text, self.doc.extra),
            _ => true,
        }
    }

    /// Whether a key takes an item of the open menu over.
    pub open spec fn accepts(self, key: KeyEvent) -> bool {
        self.menu is Some && menu_key(key) == Some(MenuKey::Accept)
    }

    /// A key in insert mode. An open menu comes first.
    pub open spec fn insert_key(self, key: KeyEvent, has_lsp: bool) -> (Desk, Ask<Seq<char>>) {
        match (self.menu, menu_key(key)) {
            (Some(m), Some(k)) => self.menu_pressed(m, k, has_lsp),
            _ => self.text_key(key, has_lsp),
        }
    }
}

impl App {
    /// Adds a key to a recording that is going on.
    pub fn record_insert_key(&mut self, k: InsertKey)
        ensures
            final(self)@ == old(self)@.noting(k),
            old(self).wf() ==> final(self).wf(),
    {
        reveal(Desk::noting);
        reveal_with_fuel(recorded, 2);
        if let Some(mut r) = self.recording.take() {
            r.keys.push(k);
            self.recording = Some(r);
        }
    }

    /// Ends a recording.
    pub fn finalize_insert_recording(&mut self)
        ensures
            final(self)@ == old(self)@.recording_ended(),
            old(self).wf() ==> final(self).wf(),
    {
        if let Some(r) = self.recording.take() {
            self.last_change = Some(LastChange::Insert { trigger: r.trigger, keys: r.keys });
        }
    }

    /// Asks for completions, where there is a server to ask.
    pub fn lsp_completion(&mut self, has_lsp: bool) -> (r: Ask)
        requires
            old(self).wf(),
        ensures
            (final(self)@, r@) == old(self)@.ask_completion(has_lsp),
            final(self).wf(),
    {
        if !has_lsp {
            self.say(Level::Error, "no LSP for this buffer");
            return Ask::Nothing;
        }
        let cursor = self.buffer.cursor;
        let col = identifier_prefix_start(self.buffer.current_line(), cursor.col);
        Ask::Completion { cursor, prefix_start: Cursor { row: cursor.row, col } }
    }

    fn type_char(&mut self, c: char, has_lsp: bool) -> (r: Ask)
        requires
            old(self).wf(),
            old(self)@.anchor is None,
            rows_exist(old(self)@.doc.text, old(self)@.doc.extra),
        ensures
            (final(self)@, r@) == old(self)@.type_char(c, has_lsp),
            final(self).wf(),
    {
        reveal(Desk::type_char);
        fan_out_insert_char(&mut self.buffer, c);
        self.record_insert_key(InsertKey::Char(c));
        self.update_completion_filter();
        if self.completion.is_none() && has_lsp && is_ident_continue(c) {
            self.lsp_completion(has_lsp)
        } else {
            Ask::Nothing
        }
    }

    fn type_tab(&mut self)
        requires
            old(self).wf(),
            old(self)@.anchor is None,
            rows_exist(old(self)@.doc.text, old(self)@.doc.extra),
        ensures
            final(self)@ == old(self)@.type_tab(),
            final(self).wf(),
    {
        reveal(Desk::type_tab);
        let s = self.indent_settings();
        if s.use_tabs {
            fan_out_insert_char(&mut self.buffer, '\t');
            self.record_insert_key(InsertKey::Char('\t'));
        } else {
            let ghost desk = self@;
            let stop = if s.width > 1 { s.width } else { 1 };
            let n = stop - self.buffer.cursor.col % stop;
            let mut i: usize = 0;
            while i < n
                invariant
                    i <= n,
                    self.wf(),
                    self@.anchor is None,
                    rows_exist(self@.doc.text, self@.doc.extra),
                    desk.wf(),
                    self@ == (Desk {
                        doc: desk.doc.fan_spaces(i as int),
                        recording: recorded(desk.recording, InsertKey::Char(' '), i as int),
                        ..desk
                    }),
                decreases n - i,
            {
                fan_out_insert_char(&mut self.buffer, ' ');
                proof {
                    reveal(Desk::noting);
                    reveal_with_fuel(recorded, 2);
                }
                self.record_insert_key(InsertKey::Char(' '));
                i = i + 1;
            }
        }
        self.update_completion_filter();
    }

    #[verifier::rlimit(30)]
    fn text_key(&mut self, key: KeyEvent, has_lsp: bool) -> (r: Ask)
        requires
            old(self).wf(),
            old(self)@.anchor is None,
            old(self)@.can_type(key),
        ensures
            (final(self)@, r@) == old(self)@.text_key(key, has_lsp),
            final(self).wf(),
    {
        match key.code {
            KeyCode::Char(c) => {
                if key.modifiers.control {
                    if c == ' ' {
                        self.lsp_completion(has_lsp)
                    } else {
                        Ask::Nothing
                    }
                } else {
                    self.type_char(c, has_lsp)
                }
            },
            KeyCode::Esc => {
                self.finalize_insert_recording();
                self.enter_mode(Mode::Normal);
                Ask::Nothing
            },
            KeyCode::Enter => {
                self.buffer.insert_newline();
                self.record_insert_key(InsertKey::Newline);
                self.cancel_completion();
                Ask::Nothing
            },
            KeyCode::Backspace => {
                fan_out_backspace(&mut self.buffer);
                self.record_insert_key(InsertKey::Backspace);
                self.update_completion_filter();
                Ask::Nothing
            },
            KeyCode::Tab => {
                self.type_tab();
                Ask::Nothing
            },
            KeyCode::Left => {
                self.recording = None;
                self.buffer.move_left();
                self.cancel_completion();
                Ask::Nothing
            },
            KeyCode::Right => {
                self.recording = None;
                self.buffer.move_right(true);
                self.cancel_completion();
                Ask::Nothing
            },
            KeyCode::Up => {
                self.recording = None;
                self.buffer.move_up();
                self.cancel_completion();
                Ask::Nothing
            },
            KeyCode::Down => {
                self.recording = None;
                self.buffer.move_down();
                self.cancel_completion();
                Ask::Nothing
            },
            _ => Ask::Nothing,
        }
    }

    /// Takes a key that goes to the menu.
    pub fn handle_completion_key(&mut self, key: MenuKey, has_lsp: bool) -> (r: Ask)
        requires
            old(self).wf(),
            old(self)@.anchor is None,
            old(self)@.menu is Some,
        ensures
            (final(self)@, r@) == old(self)@.menu_pressed(old(self)@.menu->0, key, has_lsp),
            final(self).sound(),
            !(key is Accept) ==> final(self).wf(),
    {
        match key {
            MenuKey::Close => {
                self.cancel_completion();
                Ask::Nothing
            },
            MenuKey::Up => {
                self.move_menu(-1);
                Ask::Nothing
            },
            MenuKey::Down => {
                self.move_menu(1);
                Ask::Nothing
            },
            MenuKey::Accept => match self.accept_completion() {
                Some(r) => {
                    if has_lsp {
                        Ask::Resolve(r)
                    } else {
                        Ask::Nothing
                    }
                },
                None => Ask::Nothing,
            },
        }
    }

    fn move_menu(&mut self, delta: isize)
        requires
            old(self).wf(),
            old(self)@.menu is Some,
        ensures
            final(self)@ == (Desk { menu: Some(old(self)@.menu->0.moved(delta as int)), ..old(self)@ }),
            final(self).wf(),
    {
        if let Some(mut s) = self.completion.take() {
            let ghost m = s@;
            s.move_selection(delta);
            proof {
                assert(m.rows.len() == s.filtered@.len());
                assert(s@ =~= m.moved(delta as int));
            }
            self.completion = Some(s);
        }
    }

    /// Takes a key in insert mode. An open menu comes first.
    pub fn handle_insert_key(&mut self, key: KeyEvent, has_lsp: bool) -> (r: Ask)
        requires
            old(self).wf(),
            old(self)@.anchor is None,
            old(self)@.can_type(key),
        ensures
            (final(self)@, r@) == old(self)@.insert_key(key, has_lsp),
            final(self).sound(),
            !old(self)@.accepts(key) ==> final(self).wf(),
    {
        if self.completion.is_some() {
            if let Some(k) = read_menu_key(key) {
                return self.handle_completion_key(k, has_lsp);
            }
        }
        self.text_key(key, has_lsp)
    }
}

} // verus!
