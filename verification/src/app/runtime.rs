//! Carrying out what commands ask for.
use vstd::prelude::*;
use crate::app::eval::word_under_cursor;
use crate::app::status::Level;
use crate::app::{App, Desk};
use crate::config::languages::{FormatterConfig, FormatterView};
use crate::editor::search::match_near;
use crate::editor::{in_text, least, Buffer, Cursor, Doc};
use crate::effect::{cmds_of, Cmd, ScrollAnchor};
use crate::lsp::edits::{apply_text_edits, edited_all};
use crate::lsp::{edits_of, TextEdit};
use crate::mode::Mode;
use crate::text::{chars_of, copy_str, push_str, same_str, split, split_lines, text_of};

verus! {

/// The number of rows above the cursor's in the viewport that an anchor asks
/// for, held within the text.
pub open spec fn scroll_row(row: int, height: int, lines: int, anchor: ScrollAnchor) -> int {
    let wanted = match anchor {
        ScrollAnchor::Top => row,
        ScrollAnchor::Center => if row >= height / 2 {
            row - height / 2
        } else {
            0
        },
        ScrollAnchor::Bottom => if row + 1 >= height {
            row + 1 - height
        } else {
            0
        },
    };
    let limit = if lines >= height {
        lines - height
    } else {
        0
    };
    least(wanted, limit)
}

impl Doc {
    /// The viewport scrolled so that the cursor's row lies where the anchor
    /// says. Nothing happens before the viewport is first drawn.
    #[verifier::opaque]
    pub open spec fn scrolled(self, anchor: ScrollAnchor) -> Doc {
        if self.height == 0 {
            self
        } else {
            Doc {
                scroll: scroll_row(self.cursor.row as int, self.height as int, self.text.len() as int, anchor) as usize,
                ..self
            }
        }
    }

    /// The cursor held within the text.
    pub open spec fn pinned(self) -> Doc {
        let row = least(self.cursor.row as int, self.text.len() - 1);
        self.at(row, least(self.cursor.col as int, self.text[row].len() as int))
    }

    /// The text of another program in place of the buffer's own. A line break
    /// at its end starts no line. Nothing happens where the text is the same.
    pub open spec fn formatted(self, text: Seq<char>) -> Doc {
        let lines = without_last_break(split(text));
        if lines == self.text {
            self
        } else {
            Doc { text: lines, ..self.snapshot() }.touched().pinned()
        }
    }

    /// Edits of a server. The cursor stays at its row and column, wherever
    /// the text has them.
    pub open spec fn rewritten(self, edits: Seq<TextEdit<Seq<char>>>) -> Doc {
        Doc { text: edited_all(self.text, edits), ..self.snapshot() }.touched()
    }

    /// Edits of a server that formats the text.
    pub open spec fn edited_by(self, edits: Seq<TextEdit<Seq<char>>>) -> Doc {
        self.rewritten(edits).pinned()
    }
}

/// A place pulled back into a text.
pub open spec fn pulled_in(text: Seq<Seq<char>>, c: Cursor) -> Cursor {
    let row = least(c.row as int, text.len() - 1);
    Cursor { row: row as usize, col: least(c.col as int, text[row].len() as int) as usize }
}

fn pull_in(lines: &Vec<String>, c: Cursor) -> (r: Cursor)
    requires
        lines.len() >= 1,
    ensures
        r == pulled_in(text_of(lines@), c),
        in_text(text_of(lines@), r),
{
    let ghost text = text_of(lines@);
    assert(text.len() == lines@.len());
    let last = lines.len() - 1;
    let row = if c.row < last {
        c.row
    } else {
        last
    };
    assert(text[row as int] == lines@[row as int]@);
    let n = chars_of(lines[row].as_str()).len();
    Cursor { row, col: if c.col < n { c.col } else { n } }
}

/// Where a selection was started, pulled back into a text.
pub open spec fn anchor_in(text: Seq<Seq<char>>, anchor: Option<Cursor>) -> Option<Cursor> {
    match anchor {
        Some(a) => Some(pulled_in(text, a)),
        None => None,
    }
}

impl Desk {
    /// The cursor and the anchor pulled back into the text.
    pub open spec fn settled(self) -> Desk {
        Desk { doc: self.doc.pinned(), anchor: anchor_in(self.doc.text, self.anchor), ..self }
    }
}

impl App {
    /// Pulls the cursor and the anchor back into the text.
    pub fn settle(&mut self)
        requires
            old(self).sound(),
        ensures
            final(self)@ == old(self)@.settled(),
            final(self).wf(),
            old(self).wf() ==> final(self)@ == old(self)@,
    {
        assert(self.buffer@.text.len() == self.buffer.lines@.len());
        clamp_cursor_to_buffer(&mut self.buffer);
        if let Some(a) = self.visual_anchor {
            self.visual_anchor = Some(pull_in(&self.buffer.lines, a));
        }
    }
}

pub open spec fn without_last_break(lines: Seq<Seq<char>>) -> Seq<Seq<char>> {
    if lines.len() > 1 && lines.last().len() == 0 {
        lines.drop_last()
    } else {
        lines
    }
}

fn same_lines(a: &Vec<String>, b: &Vec<String>) -> (r: bool)
    ensures
        r == (text_of(a@) == text_of(b@)),
{
    let ghost x = text_of(a@);
    let ghost y = text_of(b@);
    if a.len() != b.len() {
        assert(x.len() != y.len());
        return false;
    }
    let mut i: usize = 0;
    while i < a.len()
        invariant
            i <= a.len() == b.len(),
            x == text_of(a@),
            y == text_of(b@),
            forall|k: int| 0 <= k < i ==> x[k] == y[k],
        decreases a.len() - i,
    {
        if !same_str(a[i].as_str(), b[i].as_str()) {
            assert(x[i as int] != y[i as int]);
            return false;
        }
        assert(x[i as int] == y[i as int]);
        i = i + 1;
    }
    proof {
        assert(x =~= y);
    }
    true
}

/// Scrolls the viewport.
pub fn run_scroll(buf: &mut Buffer, anchor: ScrollAnchor)
    requires
        old(buf)@.wf(),
    ensures
        final(buf)@ == old(buf)@.scrolled(anchor),
        final(buf)@.wf(),
        final(buf)@.text == old(buf)@.text,
{
    reveal(Doc::scrolled);
    let height = buf.viewport_height;
    if height == 0 {
        return;
    }
    assert(buf@.text.len() == buf.lines@.len());
    let row = buf.cursor.row;
    let lines = buf.lines.len();
    let wanted = match anchor {
        ScrollAnchor::Top => row,
        ScrollAnchor::Center => row.saturating_sub(height / 2),
        ScrollAnchor::Bottom => (row + 1).saturating_sub(height),
    };
    let limit = lines.saturating_sub(height);
    buf.scroll = if wanted <= limit { wanted } else { limit };
}

/// Holds the cursor within the text.
pub fn clamp_cursor_to_buffer(buf: &mut Buffer)
    requires
        old(buf).lines.len() >= 1,
    ensures
        final(buf)@ == old(buf)@.pinned(),
        in_text(final(buf)@.text, final(buf)@.cursor),
{
    assert(buf@.text.len() == buf.lines@.len());
    let last = buf.lines.len() - 1;
    if buf.cursor.row > last {
        buf.cursor.row = last;
    }
    let len = buf.line_chars(buf.cursor.row).len();
    if buf.cursor.col > len {
        buf.cursor.col = len;
    }
}

/// Takes the text of a formatter over.
pub fn apply_formatted_text(buf: &mut Buffer, text: &str)
    requires
        old(buf)@.wf(),
    ensures
        final(buf)@ == old(buf)@.formatted(text@),
        final(buf)@.wf(),
{
    let ghost d = buf@;
    let mut lines = split_lines(text);
    let n = lines.len();
    let ghost all = split(text@);
    proof {
        assert(text_of(lines@)[n - 1] == lines@[n - 1]@);
        assert(text_of(lines@).len() == n);
    }
    if n > 1 && chars_of(lines[n - 1].as_str()).len() == 0 {
        let ghost before = lines@;
        lines.pop();
        proof {
            assert(text_of(lines@) =~= text_of(before).drop_last());
        }
    }
    proof {
        assert(text_of(lines@) == without_last_break(all));
        assert(lines.len() >= 1);
        assert(d.text.len() == buf.lines@.len());
    }
    if same_lines(&lines, &buf.lines) {
        return;
    }
    buf.snapshot();
    proof {
        crate::editor::history::law_history_wf(d);
    }
    buf.lines = lines;
    buf.touch();
    clamp_cursor_to_buffer(buf);
}

/// Applies edits of a server to the buffer.
pub fn rewrite(buf: &mut Buffer, edits: Vec<TextEdit>)
    requires
        old(buf)@.wf(),
    ensures
        final(buf)@ == old(buf)@.rewritten(edits_of(edits@)),
        final(buf)@.sound(),
{
    let ghost d = buf@;
    assert(d.text.len() == buf.lines@.len());
    buf.snapshot();
    proof {
        crate::editor::history::law_history_wf(d);
    }
    let mut lines = crate::text::copy_lines(&buf.lines);
    apply_text_edits(&mut lines, edits);
    buf.lines = lines;
    buf.touch();
}

/// Applies edits of a server that formats the text.
pub fn apply_server_edits(buf: &mut Buffer, edits: Vec<TextEdit>)
    requires
        old(buf)@.wf(),
    ensures
        final(buf)@ == old(buf)@.edited_by(edits_of(edits@)),
        final(buf)@.wf(),
{
    rewrite(buf, edits);
    assert(buf@.text.len() == buf.lines@.len());
    clamp_cursor_to_buffer(buf);
}

impl Desk {
    /// Goes to the next match of the search.
    #[verifier::opaque]
    pub open spec fn jump_search(self, forward: bool) -> Desk {
        match match_near(self.doc.text, self.query, self.doc.cursor, forward, false) {
            Some((r, c)) => self.with_doc(self.doc.at(r, c)),
            None => self.saying(Level::Error, "pattern not found"@),
        }
    }

    /// Selects the next match of the search. A selection that is there
    /// already is carried on to its end.
    #[verifier::opaque]
    pub open spec fn search_select(self, forward: bool) -> Desk {
        match match_near(self.doc.text, self.query, self.doc.cursor, forward, true) {
            Some((r, c)) => {
                let start = if self.mode.visual() {
                    self
                } else {
                    self.with_doc(self.doc.at(r, c)).entered(Mode::Visual)
                };
                start.with_doc(start.doc.at(r, c + self.query.len() - 1))
            },
            None => self.saying(Level::Error, "pattern not found"@),
        }
    }

    /// Searches for the word under the cursor and goes to its next
    /// occurrence.
    #[verifier::opaque]
    pub open spec fn search_word(self, forward: bool) -> Desk {
        match self.doc.word_under() {
            Some(w) => Desk { query: w, forward, ..self }.jump_search(forward),
            None => self.saying(Level::Error, "no word under cursor"@),
        }
    }

    /// Selects every line.
    #[verifier::opaque]
    pub open spec fn select_all(self) -> Desk {
        Desk {
            anchor: Some(Cursor { row: 0, col: 0 }),
            mode: Mode::VisualLine,
            doc: self.doc.at(self.doc.text.len() - 1, 0),
            ..self
        }
    }

    /// What a command does to the state of the editor. A command that needs
    /// something from outside is handed back.
    pub open spec fn run_cmd(self, c: Cmd<Seq<char>>) -> (Desk, Option<Cmd<Seq<char>>>) {
        match c {
            Cmd::EnterMode(m) => (self.entered(m), None),
            Cmd::StatusInfo(s) => (self.saying(Level::Info, s), None),
            Cmd::StatusError(s) => (self.saying(Level::Error, s), None),
            Cmd::ToastInfo(s) => (self.saying(Level::Info, s), None),
            Cmd::ToastError(s) => (self.saying(Level::Error, s), None),
            Cmd::SetSearch { pattern, forward } => (Desk { query: pattern, forward, ..self }, None),
            Cmd::JumpSearch { reverse } => (self.jump_search(self.forward != reverse), None),
            Cmd::SearchSelectMatch { reverse } => (self.search_select(self.forward != reverse), None),
            Cmd::SetLastFind(lf) => (Desk { last_find: Some(lf), ..self }, None),
            Cmd::Scroll(a) => (self.with_doc(self.doc.scrolled(a)), None),
            Cmd::SelectWholeBuffer => (self.select_all(), None),
            Cmd::Quit => (Desk { quit: true, ..self }, None),
            _ => (self, Some(c)),
        }
    }

    /// What commands do, one after the other, up to the first that needs
    /// something from outside. That one is handed back with all that follow
    /// it.
    pub open spec fn run_cmds(self, cmds: Seq<Cmd<Seq<char>>>) -> (Desk, Seq<Cmd<Seq<char>>>)
        decreases cmds.len(),
    {
        if cmds.len() == 0 {
            (self, Seq::empty())
        } else {
            match self.run_cmd(cmds[0]) {
                (d, None) => d.run_cmds(cmds.drop_first()),
                (d, Some(_)) => (d, cmds),
            }
        }
    }
}

impl App {
    /// Goes to the next match of the search.
    pub fn run_jump_search(&mut self, forward: bool)
        requires
            old(self).wf(),
        ensures
            final(self)@ == old(self)@.jump_search(forward),
            final(self).wf(),
    {
        reveal(Desk::jump_search);
        match self.search.find_next(&self.buffer, forward) {
            Some(c) => {
                self.buffer.cursor = c;
            },
            None => self.say(Level::Error, "pattern not found"),
        }
    }

    /// Selects the next match of the search.
    pub fn run_search_select(&mut self, forward: bool)
        requires
            old(self).wf(),
        ensures
            final(self)@ == old(self)@.search_select(forward),
            final(self).wf(),
    {
        reveal(Desk::search_select);
        match self.search.find_match_range(&self.buffer, forward) {
            Some((start, end)) => {
                if !self.mode.is_visual() {
                    self.buffer.cursor = start;
                    self.enter_mode(Mode::Visual);
                }
                self.buffer.cursor = end;
            },
            None => self.say(Level::Error, "pattern not found"),
        }
    }

    /// Searches for the word under the cursor and goes to its next
    /// occurrence.
    pub fn search_word_under_cursor(&mut self, forward: bool)
        requires
            old(self).wf(),
        ensures
            final(self)@ == old(self)@.search_word(forward),
            final(self).wf(),
    {
        reveal(Desk::search_word);
        match word_under_cursor(&self.buffer) {
            Some(w) => {
                self.search.set(w, forward);
                self.run_jump_search(forward);
            },
            None => self.say(Level::Error, "no word under cursor"),
        }
    }

    /// Selects every line.
    pub fn run_select_whole_buffer(&mut self)
        requires
            old(self).wf(),
        ensures
            final(self)@ == old(self)@.select_all(),
            final(self).wf(),
    {
        reveal(Desk::select_all);
        assert(self.buffer@.text.len() == self.buffer.lines@.len());
        let last = self.buffer.lines.len() - 1;
        self.visual_anchor = Some(Cursor { row: 0, col: 0 });
        self.mode = Mode::VisualLine;
        self.buffer.cursor = Cursor { row: last, col: 0 };
    }

    /// Carries out a command. One that needs something from outside is handed
    /// back.
    pub fn run_cmd(&mut self, cmd: Cmd) -> (r: Option<Cmd>)
        requires
            old(self).wf(),
        ensures
            final(self)@ == old(self)@.run_cmd(cmd@).0,
            match (r, old(self)@.run_cmd(cmd@).1) {
                (Some(a), Some(b)) => a@ == b,
                (None, None) => true,
                _ => false,
            },
            final(self).wf(),
    {
        match cmd {
            Cmd::EnterMode(m) => {
                self.enter_mode(m);
                None
            },
            Cmd::StatusInfo(s) | Cmd::ToastInfo(s) => {
                self.say(Level::Info, s.as_str());
                None
            },
            Cmd::StatusError(s) | Cmd::ToastError(s) => {
                self.say(Level::Error, s.as_str());
                None
            },
            Cmd::SetSearch { pattern, forward } => {
                self.search.set(pattern, forward);
                None
            },
            Cmd::JumpSearch { reverse } => {
                let forward = self.search.last_forward != reverse;
                self.run_jump_search(forward);
                None
            },
            Cmd::SearchSelectMatch { reverse } => {
                let forward = self.search.last_forward != reverse;
                self.run_search_select(forward);
                None
            },
            Cmd::SetLastFind(lf) => {
                self.last_find = Some(lf);
                None
            },
            Cmd::Scroll(a) => {
                run_scroll(&mut self.buffer, a);
                None
            },
            Cmd::SelectWholeBuffer => {
                self.run_select_whole_buffer();
                None
            },
            Cmd::Quit => {
                self.should_quit = true;
                None
            },
            other => Some(other),
        }
    }

    /// Carries out commands, one after the other, up to the first that needs
    /// something from outside. That one is handed back with all that follow
    /// it, to be carried on with once it is done.
    pub fn run_cmds(&mut self, cmds: Vec<Cmd>) -> (r: Vec<Cmd>)
        requires
            old(self).wf(),
        ensures
            (final(self)@, cmds_of(r@)) == old(self)@.run_cmds(cmds_of(cmds@)),
            final(self).wf(),
    {
        let ghost desk = self@;
        let ghost all = cmds_of(cmds@);
        let mut rest = cmds;
        let mut stack: Vec<Cmd> = Vec::new();
        while rest.len() > 0
            invariant
                rest@.len() + stack@.len() == all.len(),
                forall|i: int| 0 <= i < rest@.len() ==> rest@[i]@ == all[i],
                forall|i: int| 0 <= i < stack@.len() ==> stack@[i]@ == all[all.len() - 1 - i],
            decreases rest.len(),
        {
            if let Some(c) = rest.pop() {
                stack.push(c);
            }
        }
        let ghost mut done: int = 0;
        proof {
            assert(all.skip(0) =~= all);
        }
        while stack.len() > 0
            invariant
                self.wf(),
                0 <= done <= all.len(),
                stack@.len() == all.len() - done,
                forall|i: int| 0 <= i < stack@.len() ==> stack@[i]@ == all[all.len() - 1 - i],
                desk.run_cmds(all) == self@.run_cmds(all.skip(done)),
                desk == old(self)@,
                all == cmds_of(cmds@),
            ensures
                done == all.len(),
            decreases stack.len(),
        {
            let c = match stack.pop() {
                Some(c) => c,
                None => break,
            };
            let ghost left = all.skip(done);
            proof {
                assert(left[0] == c@);
                assert(left.drop_first() =~= all.skip(done + 1));
            }
            if let Some(o) = self.run_cmd(c) {
                let mut out: Vec<Cmd> = Vec::new();
                out.push(o);
                while stack.len() > 0
                    invariant
                        0 <= done < all.len(),
                        left == all.skip(done),
                        1 <= out@.len(),
                        out@.len() + stack@.len() == left.len(),
                        forall|i: int| 0 <= i < stack@.len() ==> stack@[i]@ == all[all.len() - 1 - i],
                        forall|i: int| 0 <= i < out@.len() ==> (#[trigger] out@[i])@ == left[i],
                    decreases stack.len(),
                {
                    if let Some(c) = stack.pop() {
                        out.push(c);
                    }
                }
                proof {
                    assert(cmds_of(out@) =~= left);
                }
                return out;
            }
            proof {
                done = done + 1;
            }
        }
        let out: Vec<Cmd> = Vec::new();
        proof {
            assert(all.skip(done) =~= Seq::empty());
            assert(cmds_of(out@) =~= Seq::empty());
        }
        out
    }
}

/// What a save does first.
#[derive(Debug)]
pub enum FormatPlan {
    /// The buffer is written as it is.
    Nothing,
    /// A program formats it.
    External(FormatterConfig),
    /// The server of the buffer formats it, if there is one.
    Server(FormattingOptions),
}

/// What a server is told about formatting.
#[derive(Debug, Clone, Copy, PartialEq, Eq, Structural)]
pub struct FormattingOptions {
    pub tab_size: usize,
    pub insert_spaces: bool,
    pub trim_trailing_whitespace: bool,
    pub insert_final_newline: bool,
    pub trim_final_newlines: bool,
}

/// What a save writes.
#[derive(Debug)]
pub enum SavePlan {
    /// The text, to a path.
    Write { path: String, text: String },
    /// There is no path to write to.
    NoName,
}

impl Desk {
    /// What a server is told about formatting the buffer.
    pub open spec fn formatting(self) -> FormattingOptions {
        FormattingOptions {
            tab_size: self.settings().indent_width,
            insert_spaces: !self.settings().use_tabs,
            trim_trailing_whitespace: true,
            insert_final_newline: true,
            trim_final_newlines: true,
        }
    }

    /// The formatter of the buffer's language.
    pub open spec fn formatter(self) -> Option<FormatterView> {
        match self.language() {
            Some(l) => match l.formatter {
                Some(f) => Some(f@),
                None => None,
            },
            None => None,
        }
    }

    /// A save that was carried out: the message, and whether to quit.
    pub open spec fn saved(self, path: Option<Seq<char>>, then_quit: bool) -> Desk {
        let quit = self.quit || then_quit;
        match path {
            Some(p) => Desk {
                doc: Doc { path: Some(p), dirty: false, ..self.doc },
                said: (Level::Info, "written to "@ + p),
                quit,
                ..self
            },
            None => Desk {
                doc: Doc { dirty: false, ..self.doc },
                said: (Level::Info, "written"@),
                quit,
                ..self
            },
        }
    }
}

impl App {
    /// What a server is told about formatting the buffer.
    pub fn formatting_options(&self) -> (r: FormattingOptions)
        requires
            self.config.wf(),
        ensures
            r == self@.formatting(),
    {
        let e = self.effective_editor();
        FormattingOptions {
            tab_size: e.indent_width,
            insert_spaces: !e.use_tabs,
            trim_trailing_whitespace: true,
            insert_final_newline: true,
            trim_final_newlines: true,
        }
    }

    /// How a save formats the buffer. Only a save in place does, and only
    /// where the settings ask for it. A program comes before the server.
    pub fn plan_format(&self, path: &Option<String>) -> (r: FormatPlan)
        requires
            self.config.wf(),
        ensures
            (r is Nothing) == (*path is Some || self@.doc.path is None || !self@.settings().format_on_save),
            r is External ==> self@.formatter() == Some(r->External_0@),
            r is Server ==> self@.formatter() is None && r->Server_0 == self@.formatting(),
    {
        if path.is_some() || self.buffer.path.is_none() {
            return FormatPlan::Nothing;
        }
        let e = self.effective_editor();
        if !e.format_on_save {
            return FormatPlan::Nothing;
        }
        if let Some(l) = self.language() {
            if let Some(f) = &l.formatter {
                return FormatPlan::External(f.copy());
            }
        }
        FormatPlan::Server(self.formatting_options())
    }

    /// What a save writes: the whole text, to the given path, else to the
    /// buffer's own. Without any path there is a message instead.
    pub fn plan_save(&mut self, path: &Option<String>) -> (r: SavePlan)
        requires
            old(self).wf(),
        ensures
            match (*path, old(self)@.doc.path) {
                (Some(p), _) => r matches SavePlan::Write { path: q, text } && q@ == p@ && text@
                    == crate::text::join(old(self)@.doc.text, 0, old(self)@.doc.text.len() as int) && final(self)@
                    == old(self)@,
                (None, Some(p)) => r matches SavePlan::Write { path: q, text } && q@ == p && text@
                    == crate::text::join(old(self)@.doc.text, 0, old(self)@.doc.text.len() as int) && final(self)@
                    == old(self)@,
                (None, None) => r is NoName && final(self)@ == old(self)@.saying(
                    Level::Error,
                    "no file name (use :w <path>)"@,
                ),
            },
            final(self).wf(),
    {
        let target = match path {
            Some(p) => p.clone(),
            None => match &self.buffer.path {
                Some(p) => p.clone(),
                None => {
                    self.say(Level::Error, "no file name (use :w <path>)");
                    return SavePlan::NoName;
                },
            },
        };
        SavePlan::Write { path: target, text: self.buffer.contents() }
    }

    /// Notes that the buffer was written.
    pub fn note_saved(&mut self, path: &Option<String>, then_quit: bool)
        requires
            old(self).wf(),
        ensures
            final(self)@ == old(self)@.saved(crate::text::opt_str(*path), then_quit),
            final(self).wf(),
    {
        match path {
            Some(p) => {
                self.buffer.save_as(p.as_str());
                let mut m = copy_str("written to ");
                push_str(&mut m, p.as_str());
                self.say(Level::Info, m.as_str());
            },
            None => {
                self.buffer.mark_saved();
                self.say(Level::Info, "written");
            },
        }
        if then_quit {
            self.should_quit = true;
        }
    }
}

} // verus!
