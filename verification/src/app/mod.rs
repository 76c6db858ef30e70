//! The editor around the buffer.
use vstd::prelude::*;
use crate::action::{InsertKey, InsertRecording, LastChange, LastFind, Token};
use crate::buffer_ref::BufferRef;
use crate::config::editor::EditorConfig;
use crate::config::languages::{extension_owner, Language};
use crate::config::Config;
use crate::editor::search::SearchState;
use crate::editor::{in_text, Buffer, Cursor, Doc, IndentSettings};
use crate::lsp::CompletionItem;
use crate::mode::Mode;
use crate::path::{extension, extension_in};
use crate::text::opt_str;

pub mod anchor;
pub mod buffer_laws;
pub mod buffers;
pub mod completion;
pub mod eval;
pub mod input;
pub mod laws;
pub mod lsp_apply;
pub mod lsp_request;
pub mod menu_laws;
pub mod open;
pub mod runtime;
pub mod server_laws;
pub mod signature;
pub mod status;
pub mod types;

use completion::{indices, CompletionState};
use eval::handle::expr_edits;
use status::{Level, Status};
use types::{selected, selection, Selection};

verus! {

/// How many recently opened buffers are remembered.
pub const MRU_CAP: usize = 64;

/// The state of the editor.
#[derive(Debug)]
pub struct App {
    pub buffer: Buffer,
    pub mode: Mode,
    pub search: SearchState,
    pub status: Status,
    /// The tokens since the last command.
    pub tokens: Vec<Token>,
    /// Where the visual selection was started.
    pub visual_anchor: Option<Cursor>,
    /// Whether a `g` waits for its second key in a visual mode.
    pub visual_g_pending: bool,
    /// What `;` and `,` repeat.
    pub last_find: Option<LastFind>,
    pub recording: Option<InsertRecording>,
    /// What `.` repeats.
    pub last_change: Option<LastChange>,
    pub completion: Option<CompletionState>,
    pub should_quit: bool,
    pub config: Config,
    /// The directory in which the editor was started.
    pub startup_cwd: String,
    /// The buffers that were opened, the latest one last.
    pub opened_paths: Vec<BufferRef>,
    /// The buffers that are open and not shown.
    pub sleeping: Vec<(BufferRef, Buffer)>,
    /// Counts the buffers that were opened. What was started for another
    /// count is out of date.
    pub open_gen: u64,
}

/// What an open completion menu shows.
#[verifier::ext_equal]
pub struct Menu {
    pub start: Cursor,
    pub items: Seq<CompletionItem>,
    pub rows: Seq<int>,
    pub selected: int,
}

/// The state of the editor, in its content.
#[verifier::ext_equal]
pub struct Desk {
    pub doc: Doc,
    pub mode: Mode,
    pub query: Seq<char>,
    pub forward: bool,
    pub said: (Level, Seq<char>),
    pub tokens: Seq<Token>,
    pub anchor: Option<Cursor>,
    pub g_pending: bool,
    pub last_find: Option<LastFind>,
    pub recording: Option<InsertRecording<Seq<InsertKey>>>,
    pub last_change: Option<LastChange<Seq<InsertKey>>>,
    pub menu: Option<Menu>,
    pub quit: bool,
    pub config: Config,
    pub cwd: Seq<char>,
    pub opened: Seq<BufferRef<Seq<char>>>,
    pub sleeping: Seq<(BufferRef<Seq<char>>, Doc)>,
    pub gen: u64,
}

pub open spec fn refs_of(v: Seq<BufferRef>) -> Seq<BufferRef<Seq<char>>> {
    Seq::new(v.len(), |i: int| v[i]@)
}

pub open spec fn sleepers_of(v: Seq<(BufferRef, Buffer)>) -> Seq<(BufferRef<Seq<char>>, Doc)> {
    Seq::new(v.len(), |i: int| (v[i].0@, v[i].1@))
}

impl View for CompletionState {
    type V = Menu;

    open spec fn view(&self) -> Menu {
        Menu {
            start: self.prefix_start,
            items: self.items@,
            rows: indices(self.filtered@),
            selected: self.selected as int,
        }
    }
}

impl View for App {
    type V = Desk;

    open spec fn view(&self) -> Desk {
        Desk {
            doc: self.buffer@,
            mode: self.mode,
            query: self.search.query@,
            forward: self.search.last_forward,
            said: self.status.said(),
            tokens: self.tokens@,
            anchor: self.visual_anchor,
            g_pending: self.visual_g_pending,
            last_find: self.last_find,
            recording: match self.recording {
                Some(r) => Some(r@),
                None => None,
            },
            last_change: match self.last_change {
                Some(c) => Some(c@),
                None => None,
            },
            menu: match self.completion {
                Some(c) => Some(c@),
                None => None,
            },
            quit: self.should_quit,
            config: self.config,
            cwd: self.startup_cwd@,
            opened: refs_of(self.opened_paths@),
            sleeping: sleepers_of(self.sleeping@),
            gen: self.open_gen,
        }
    }
}

/// The language of a path, by its extension.
#[verifier::opaque]
pub open spec fn language_at(config: Config, path: Option<Seq<char>>) -> Option<Language> {
    match path {
        None => None,
        Some(p) => match extension_in(p) {
            None => None,
            Some(ext) => {
                let langs = config.languages.by_name;
                match extension_owner(langs.entries@, ext, langs.entries@.len() as int) {
                    Some(name) => langs.at(name),
                    None => None,
                }
            },
        },
    }
}

/// What is recorded for repetition changes the text.
pub open spec fn recording_wf(r: Option<InsertRecording<Seq<InsertKey>>>) -> bool {
    match r {
        Some(r) => expr_edits(r.trigger),
        None => true,
    }
}

/// What can be repeated changes the text.
pub open spec fn change_wf(c: Option<LastChange<Seq<InsertKey>>>) -> bool {
    match c {
        Some(LastChange::Expr(e)) => expr_edits(e),
        Some(LastChange::Insert { trigger, keys }) => expr_edits(trigger),
        None => true,
    }
}

pub open spec fn sleepers_wf(s: Seq<(BufferRef<Seq<char>>, Doc)>) -> bool {
    forall|i: int| 0 <= i < s.len() ==> (#[trigger] s[i]).1.wf()
}

impl Desk {
    /// The text and its history are sound, every sleeping buffer is, and what
    /// is recorded for repetition changes the text.
    pub open spec fn sound(self) -> bool {
        &&& self.doc.sound()
        &&& self.config.wf()
        &&& recording_wf(self.recording)
        &&& change_wf(self.last_change)
        &&& sleepers_wf(self.sleeping)
    }

    /// The cursor and the anchor are in the text.
    pub open spec fn placed(self) -> bool {
        &&& in_text(self.doc.text, self.doc.cursor)
        &&& self.anchor matches Some(a) ==> in_text(self.doc.text, a)
    }

    /// What most of the editor asks for. Edits that come from a server, and
    /// cursors that were added before an edit, can leave the cursor outside
    /// the text.
    pub open spec fn wf(self) -> bool {
        self.sound() && self.placed()
    }

    /// The language of the buffer.
    pub open spec fn language(self) -> Option<Language> {
        language_at(self.config, self.doc.path)
    }

    /// The settings of the editor, with what the language sets over them.
    pub open spec fn settings(self) -> EditorConfig {
        match self.language() {
            Some(l) => self.config.editor.overlaid(l.editor),
            None => self.config.editor,
        }
    }

    pub open spec fn indent(self) -> IndentSettings {
        IndentSettings { width: self.settings().indent_width, use_tabs: self.settings().use_tabs }
    }

    /// What starts a comment in the buffer's language.
    pub open spec fn comment_token(self) -> Option<Seq<char>> {
        match self.language() {
            Some(l) => opt_str(l.comment_token),
            None => None,
        }
    }

    pub open spec fn with_doc(self, doc: Doc) -> Desk {
        Desk { doc, ..self }
    }

    pub open spec fn saying(self, level: Level, text: Seq<char>) -> Desk {
        Desk { said: (level, text), ..self }
    }

    /// The anchor is pinned when a visual mode starts and dropped when it
    /// ends. Normal mode holds the cursor on a character.
    pub open spec fn entered(self, mode: Mode) -> Desk {
        Desk {
            anchor: if mode.visual() && !self.mode.visual() {
                Some(self.doc.cursor)
            } else if !mode.visual() {
                None
            } else {
                self.anchor
            },
            doc: if mode is Normal {
                self.doc.clamped(false)
            } else {
                self.doc
            },
            mode,
            ..self
        }
    }

    pub open spec fn selection(self) -> Option<Selection> {
        selected(self.mode, self.anchor, self.doc.cursor)
    }
}

impl App {
    pub open spec fn sound(self) -> bool {
        self@.sound()
    }

    pub open spec fn wf(self) -> bool {
        self@.wf()
    }

    /// The editor as it starts, with an empty buffer.
    pub fn new(config: Config, startup_cwd: String) -> (r: App)
        requires
            config.wf(),
        ensures
            r.wf(),
            r@ == (Desk {
                doc: (Doc {
                    text: seq![Seq::empty()],
                    cursor: (Cursor { row: 0, col: 0 }),
                    extra: Seq::empty(),
                    path: None,
                    dirty: false,
                    yank: Seq::empty(),
                    version: 0,
                    scroll: 0,
                    height: 0,
                    visual_y: 0,
                    undo: Seq::empty(),
                    redo: Seq::empty(),
                    tokens: Seq::empty(),
                }),
                mode: Mode::Normal,
                query: Seq::empty(),
                forward: true,
                said: (Level::Info, "vorto — :q quit, :w save, <space>f files, <space>l lines"@),
                tokens: Seq::empty(),
                anchor: None,
                g_pending: false,
                last_find: None,
                recording: None,
                last_change: None,
                menu: None,
                quit: false,
                config,
                cwd: startup_cwd@,
                opened: seq![BufferRef::Scratch],
                sleeping: Seq::empty(),
                gen: 0,
            }),
    {
        let mut opened_paths: Vec<BufferRef> = Vec::new();
        opened_paths.push(BufferRef::Scratch);
        let r = App {
            buffer: Buffer::new(),
            mode: Mode::Normal,
            search: SearchState { query: String::new(), last_forward: true },
            status: Status::info("vorto — :q quit, :w save, <space>f files, <space>l lines"),
            tokens: Vec::new(),
            visual_anchor: None,
            visual_g_pending: false,
            last_find: None,
            recording: None,
            last_change: None,
            completion: None,
            should_quit: false,
            config,
            startup_cwd,
            opened_paths,
            sleeping: Vec::new(),
            open_gen: 0,
        };
        proof {
            reveal_strlit("");
            assert(r@.opened =~= seq![BufferRef::Scratch]);
            assert(r@.sleeping =~= Seq::empty());
            assert(r@.query =~= Seq::empty());
        }
        r
    }

    /// The language of the buffer.
    pub fn language(&self) -> (r: Option<&Language>)
        requires
            self.config.wf(),
        ensures
            match (r, self@.language()) {
                (Some(a), Some(b)) => *a == b,
                (None, None) => true,
                _ => false,
            },
    {
        reveal(language_at);
        let path = match &self.buffer.path {
            Some(p) => p,
            None => return None,
        };
        match extension(path.as_str()) {
            Some(ext) => self.config.languages.by_extension(ext.as_str()),
            None => None,
        }
    }

    /// The settings of the editor, with what the language sets over them.
    pub fn effective_editor(&self) -> (r: EditorConfig)
        requires
            self.config.wf(),
        ensures
            r == self@.settings(),
    {
        match self.language() {
            Some(l) => self.config.editor.overlay(&l.editor),
            None => self.config.editor,
        }
    }

    /// How lines of the buffer are indented.
    pub fn indent_settings(&self) -> (r: IndentSettings)
        requires
            self.config.wf(),
        ensures
            r == self@.indent(),
    {
        let e = self.effective_editor();
        IndentSettings { width: e.indent_width, use_tabs: e.use_tabs }
    }

    /// What starts a comment in the buffer's language.
    pub fn buffer_comment_token(&self) -> (r: Option<String>)
        requires
            self.config.wf(),
        ensures
            opt_str(r) == self@.comment_token(),
    {
        match self.language() {
            Some(l) => match &l.comment_token {
                Some(t) => Some(t.clone()),
                None => None,
            },
            None => None,
        }
    }

    /// Puts up a message.
    pub fn say(&mut self, level: Level, text: &str)
        ensures
            final(self)@ == old(self)@.saying(level, text@),
    {
        self.status = Status::with_level(text, level);
    }

    /// Changes the mode.
    pub fn enter_mode(&mut self, mode: Mode)
        requires
            old(self).wf(),
        ensures
            final(self)@ == old(self)@.entered(mode),
            final(self).wf(),
    {
        if mode.is_visual() && !self.mode.is_visual() {
            self.visual_anchor = Some(self.buffer.cursor);
        } else if !mode.is_visual() {
            self.visual_anchor = None;
        }
        if mode == Mode::Normal {
            self.buffer.clamp_col(false);
        }
        self.mode = mode;
    }

    /// What is selected.
    pub fn selection(&self) -> (r: Option<Selection>)
        ensures
            r == self@.selection(),
    {
        selection(self.mode, self.visual_anchor, self.buffer.cursor)
    }
}

} // verus!
