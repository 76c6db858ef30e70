//! Keyboard input.
use vstd::prelude::*;
use crate::app::buffers::{asleep, RefView};
use crate::app::eval::handle::{none, one, Cmds};
use crate::app::{refs_of, App, Desk};
use crate::buffer_ref::BufferRef;
use crate::effect::{cmds_of, Cmd};
use crate::keys::{KeyCode, KeyEvent};
use crate::mode::Mode;
use crate::path::{join, joined};
use crate::prompt::PromptOutcome;
use crate::text::{chars_of, copy_str, push_str, same_str, string_slice, text_of};

pub mod fan_out;
pub mod insert;
pub mod laws;
pub mod visual;

use fan_out::rows_exist;
use insert::Ask;

verus! {

/// What a key asks for beyond the state of the editor.
#[derive(Debug)]
pub struct KeyEffect {
    /// Commands that need something from outside, in their order.
    pub cmds: Vec<Cmd>,
    pub ask: Ask,
}

impl Desk {
    /// A key, with no prompt open.
    pub open spec fn key(self, key: KeyEvent, has_lsp: bool) -> (Desk, Cmds, Ask<Seq<char>>) {
        if key.modifiers.control && key.code == KeyCode::Char('c') {
            (Desk { quit: true, ..self }, Seq::empty(), Ask::Nothing)
        } else {
            match self.mode {
                Mode::Insert => {
                    let (d, a) = self.insert_key(key, has_lsp);
                    (d, Seq::empty(), a)
                },
                Mode::Normal => {
                    let (d, c) = self.normal_key(key);
                    (d, c, Ask::Nothing)
                },
                _ => (self.visual_key(key), Seq::empty(), Ask::Nothing),
            }
        }
    }

    /// What comes of a prompt.
    pub open spec fn prompted(self, o: PromptOutcome<Seq<char>>) -> (Desk, Cmds) {
        match o {
            PromptOutcome::RunCommand(line) => self.command(line),
            PromptOutcome::Search { forward, query } => (
                Desk { query, forward, ..self }.jump_search(forward),
                Seq::empty(),
            ),
            PromptOutcome::OpenRelativeFile(rel) => (self, seq![Cmd::OpenPath(joined(self.cwd, rel))]),
            PromptOutcome::GotoLine(row) => (self.with_doc(self.doc.at(row as int, 0)), Seq::empty()),
            _ => (self, Seq::empty()),
        }
    }
}

impl App {
    /// Takes a key, with no prompt open. Outside the visual modes there is no
    /// anchor.
    pub fn handle_key(&mut self, key: KeyEvent, has_lsp: bool) -> (r: KeyEffect)
        requires
            old(self).wf(),
            !old(self).mode.visual() ==> old(self)@.anchor is None,
            old(self).mode is Insert ==> old(self)@.can_type(key),
        ensures
            (final(self)@, cmds_of(r.cmds@), r.ask@) == old(self)@.key(key, has_lsp),
            final(self).sound(),
            match old(self).mode {
                Mode::Insert => !old(self)@.accepts(key),
                Mode::Normal => old(self)@.last_extra_holds(),
                _ => true,
            } ==> final(self).wf(),
    {
        if key.modifiers.control && key.code == KeyCode::Char('c') {
            self.should_quit = true;
            return KeyEffect { cmds: none(), ask: Ask::Nothing };
        }
        match self.mode {
            Mode::Insert => {
                let ask = self.handle_insert_key(key, has_lsp);
                KeyEffect { cmds: none(), ask }
            },
            Mode::Normal => {
                let cmds = self.handle_normal_key(key);
                KeyEffect { cmds, ask: Ask::Nothing }
            },
            Mode::Visual | Mode::VisualLine | Mode::VisualBlock => {
                self.handle_visual_key(key);
                KeyEffect { cmds: none(), ask: Ask::Nothing }
            },
        }
    }

    /// Carries out what comes of a prompt. A row of the list of buffers or of
    /// places is for the caller, who has the list.
    pub fn apply_prompt_outcome(&mut self, outcome: PromptOutcome) -> (r: Vec<Cmd>)
        requires
            old(self).wf(),
            old(self)@.anchor is None,
            outcome matches PromptOutcome::GotoLine(row) ==> row < old(self)@.doc.text.len(),
        ensures
            (final(self)@, cmds_of(r@)) == old(self)@.prompted(outcome@),
            final(self).sound(),
            old(self)@.last_extra_holds() ==> final(self).wf(),
    {
        match outcome {
            PromptOutcome::RunCommand(line) => self.execute_command(line.as_str()),
            PromptOutcome::Search { forward, query } => {
                self.search.set(query, forward);
                self.run_jump_search(forward);
                none()
            },
            PromptOutcome::OpenRelativeFile(rel) => one(
                Cmd::OpenPath(join(self.startup_cwd.as_str(), rel.as_str())),
            ),
            PromptOutcome::GotoLine(row) => {
                self.buffer.cursor.row = row;
                self.buffer.cursor.col = 0;
                none()
            },
            _ => none(),
        }
    }

    /// Whether every extra cursor stands in a row that the text has.
    pub fn extra_rows_exist(&self) -> (r: bool)
        ensures
            r == rows_exist(self@.doc.text, self@.doc.extra),
    {
        let n = self.buffer.lines.len();
        assert(n == self@.doc.text.len());
        let mut i: usize = 0;
        while i < self.buffer.extra_cursors.len()
            invariant
                i <= self.buffer.extra_cursors.len(),
                n == self@.doc.text.len(),
                forall|k: int| 0 <= k < i ==> (#[trigger] self.buffer.extra_cursors@[k]).row < n,
            decreases self.buffer.extra_cursors.len() - i,
        {
            if self.buffer.extra_cursors[i].row >= n {
                assert(self@.doc.extra[i as int].row >= n);
                return false;
            }
            i = i + 1;
        }
        true
    }
}

/// A path as it is shown below a directory; a path elsewhere is shown whole.
pub open spec fn shown_below(dir: Seq<char>, path: Seq<char>) -> Seq<char> {
    let n = dir.len() as int;
    if !dir.is_prefix_of(path) {
        path
    } else if path.len() == n {
        Seq::empty()
    } else if n > 0 && dir.last() == '/' {
        path.skip(n)
    } else if path[n] == '/' && n > 0 {
        path.skip(n + 1)
    } else {
        path
    }
}

/// A path as it is shown below a directory.
pub fn strip_dir(dir: &str, path: &str) -> (r: String)
    ensures
        r@ == shown_below(dir@, path@),
{
    let d = chars_of(dir);
    let p = chars_of(path);
    let n = d.len();
    if n > p.len() {
        return copy_str(path);
    }
    let head = string_slice(&p, 0, n);
    proof {
        assert(head@ =~= path@.subrange(0, n as int));
        assert((head@ == dir@) == dir@.is_prefix_of(path@));
    }
    if !same_str(head.as_str(), dir) {
        return copy_str(path);
    }
    if p.len() == n {
        proof {
            reveal_strlit("");
        }
        return String::new();
    }
    if n > 0 && d[n - 1] == '/' {
        let r = string_slice(&p, n, p.len());
        proof {
            assert(r@ =~= path@.skip(n as int));
        }
        return r;
    }
    if n > 0 && p[n] == '/' {
        let r = string_slice(&p, n + 1, p.len());
        proof {
            assert(r@ =~= path@.skip(n + 1));
        }
        return r;
    }
    copy_str(path)
}

/// What the list of buffers knows from outside: the path of the buffer that
/// is shown, as the file system names it, whether it differs from the
/// version control system's, and the files that differ.
#[derive(Debug)]
pub struct PickerFacts {
    pub current_path: Option<String>,
    pub active_changed: bool,
    pub changed: Vec<String>,
}

impl Desk {
    /// Whether an entry of the list is the buffer that is shown.
    pub open spec fn is_shown(self, r: RefView, current: Option<Seq<char>>) -> bool {
        match r {
            BufferRef::Scratch => self.doc.path is None,
            BufferRef::File(p) => current == Some(p),
        }
    }

    /// Whether a buffer of the list has unsaved changes.
    pub open spec fn is_unsaved(self, r: RefView, current: Option<Seq<char>>) -> bool {
        if self.is_shown(r, current) {
            self.doc.dirty
        } else {
            match asleep(self.sleeping, r) {
                Some(d) => d.dirty,
                None => false,
            }
        }
    }

    /// Whether a buffer of the list differs from the version control
    /// system's.
    pub open spec fn is_changed(self, r: RefView, facts: PickerFacts) -> bool {
        let current = crate::text::opt_str(facts.current_path);
        match r {
            BufferRef::Scratch => false,
            BufferRef::File(p) => if self.is_shown(r, current) {
                facts.active_changed
            } else {
                text_of(facts.changed@).contains(p) || self.is_unsaved(r, current)
            },
        }
    }

    /// An entry of the list: a mark for the buffer that is shown, one for
    /// changes against the version control system, one for unsaved changes,
    /// and the name.
    pub open spec fn picker_line(self, r: RefView, facts: PickerFacts) -> Seq<char> {
        let current = crate::text::opt_str(facts.current_path);
        seq![
            mark(self.is_shown(r, current), '%'),
            mark(self.is_changed(r, facts), '~'),
            mark(self.is_unsaved(r, current), '+'),
            ' ',
        ] + match r {
            BufferRef::Scratch => "[scratch]"@,
            BufferRef::File(p) => shown_below(self.cwd, p),
        }
    }

    /// The list, the latest buffer first.
    pub open spec fn picker_lines(self, facts: PickerFacts) -> Seq<Seq<char>> {
        let n = self.opened.len();
        Seq::new(n, |i: int| self.picker_line(self.opened[n - 1 - i], facts))
    }
}

/// A character where something holds, else a blank.
pub open spec fn mark(on: bool, c: char) -> char {
    if on {
        c
    } else {
        ' '
    }
}

fn holds_text(v: &Vec<String>, s: &str) -> (r: bool)
    ensures
        r == text_of(v@).contains(s@),
{
    let ghost t = text_of(v@);
    let mut i: usize = 0;
    while i < v.len()
        invariant
            i <= v.len(),
            t == text_of(v@),
            forall|k: int| 0 <= k < i ==> t[k] != s@,
        decreases v.len() - i,
    {
        assert(t[i as int] == v@[i as int]@);
        if same_str(v[i].as_str(), s) {
            return true;
        }
        i = i + 1;
    }
    false
}

impl App {
    fn sleeping_dirty(&self, r: &BufferRef) -> (b: bool)
        ensures
            b == match asleep(self@.sleeping, r@) {
                Some(d) => d.dirty,
                None => false,
            },
    {
        let ghost s = self@.sleeping;
        let mut k: usize = self.sleeping.len();
        proof {
            assert(s.take(k as int) =~= s);
        }
        while k > 0
            invariant
                k <= self.sleeping.len(),
                s == self@.sleeping,
                s.len() == self.sleeping@.len(),
                asleep(s, r@) == asleep(s.take(k as int), r@),
            decreases k,
        {
            proof {
                let t = s.take(k as int);
                assert(t.last() == s[k - 1]);
                assert(s[k - 1] == (self.sleeping@[k - 1].0@, self.sleeping@[k - 1].1@));
                assert(t.drop_last() =~= s.take(k - 1));
            }
            if self.sleeping[k - 1].0.same(r) {
                return self.sleeping[k - 1].1.dirty;
            }
            k = k - 1;
        }
        false
    }

    fn picker_line(&self, r: &BufferRef, facts: &PickerFacts) -> (l: String)
        ensures
            l@ == self@.picker_line(r@, *facts),
    {
        let shown = match r {
            BufferRef::Scratch => self.buffer.path.is_none(),
            BufferRef::File(p) => match &facts.current_path {
                Some(c) => same_str(c.as_str(), p.as_str()),
                None => false,
            },
        };
        let dirty = if shown { self.buffer.dirty } else { self.sleeping_dirty(r) };
        let changed = match r {
            BufferRef::Scratch => false,
            BufferRef::File(p) => {
                if shown {
                    facts.active_changed
                } else {
                    holds_text(&facts.changed, p.as_str()) || dirty
                }
            },
        };
        let mut out = String::new();
        proof {
            reveal_strlit("");
        }
        out.push(if shown { '%' } else { ' ' });
        out.push(if changed { '~' } else { ' ' });
        out.push(if dirty { '+' } else { ' ' });
        out.push(' ');
        let ghost current = crate::text::opt_str(facts.current_path);
        proof {
            assert(out@ =~= seq![
                mark(self@.is_shown(r@, current), '%'),
                mark(self@.is_changed(r@, *facts), '~'),
                mark(self@.is_unsaved(r@, current), '+'),
                ' ',
            ]);
        }
        match r {
            BufferRef::Scratch => push_str(&mut out, "[scratch]"),
            BufferRef::File(p) => push_str(&mut out, strip_dir(self.startup_cwd.as_str(), p.as_str()).as_str()),
        }
        out
    }

    /// The list of buffers to pick from, the latest first, with what each
    /// entry names.
    pub fn open_buffer_picker(&self, facts: &PickerFacts) -> (r: (Vec<String>, Vec<BufferRef>))
        ensures
            text_of(r.0@) == self@.picker_lines(*facts),
            refs_of(r.1@) == self@.opened.reverse(),
    {
        let ghost list = self@.opened;
        let ghost n = list.len() as int;
        let mut items: Vec<String> = Vec::new();
        let mut refs: Vec<BufferRef> = Vec::new();
        let mut k: usize = self.opened_paths.len();
        while k > 0
            invariant
                k <= self.opened_paths.len() == n,
                list == self@.opened,
                n == list.len(),
                items.len() == n - k,
                refs.len() == n - k,
                forall|i: int| 0 <= i < n - k ==> (#[trigger] items@[i])@ == self@.picker_line(list[n - 1 - i], *facts),
                forall|i: int| 0 <= i < n - k ==> (#[trigger] refs@[i])@ == list[n - 1 - i],
            decreases k,
        {
            let r = self.opened_paths[k - 1].copy();
            assert(list[k - 1] == r@);
            items.push(self.picker_line(&r, facts));
            refs.push(r);
            k = k - 1;
        }
        proof {
            assert(text_of(items@) =~= self@.picker_lines(*facts));
            assert(refs_of(refs@) =~= list.reverse());
        }
        (items, refs)
    }
}

} // verus!
