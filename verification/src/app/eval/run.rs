//! Evaluating commands and repeating the last change.
use vstd::prelude::*;
use crate::action::{Ctx, DirectKind, Expr, InsertKey, InsertRecording, LastChange};
use crate::app::eval::handle::{expr_edits, expr_modifies_buffer, none, stays_placed, Cmds};
use crate::app::eval::parse::{classify, key_token, parsed, tokenize, Parse};
use crate::app::eval::{override_count, recounted};
use crate::app::status::Level;
use crate::app::{App, Desk};
use crate::config::command::{command_named, command_table, CommandBind};
use crate::editor::{skip_blanks, skip_space, Buffer, Doc};
use crate::effect::{cmds_of, Cmd};
use crate::keys::KeyEvent;
use crate::mode::Mode;
use crate::number::{number_in, parse_usize};
use crate::text::{chars_of, copy_str, push_str, string_slice, white_space};

verus! {

/// Whether a list of commands starts insert mode.
pub open spec fn enters_insert(cmds: Cmds) -> bool {
    cmds.contains(Cmd::EnterMode(Mode::Insert))
}

fn starts_insert(cmds: &Vec<Cmd>) -> (r: bool)
    ensures
        r == enters_insert(cmds_of(cmds@)),
{
    let ghost all = cmds_of(cmds@);
    let mut i: usize = 0;
    while i < cmds.len()
        invariant
            i <= cmds.len(),
            all == cmds_of(cmds@),
            forall|k: int| 0 <= k < i ==> all[k] != Cmd::<Seq<char>>::EnterMode(Mode::Insert),
        decreases cmds.len() - i,
    {
        assert(all[i as int] == cmds@[i as int]@);
        if let Cmd::EnterMode(m) = &cmds[i] {
            if *m == Mode::Insert {
                return true;
            }
        }
        i = i + 1;
    }
    false
}

impl Doc {
    /// One recorded key, typed again.
    pub open spec fn retype(self, k: InsertKey) -> Doc {
        match k {
            InsertKey::Char(c) => self.insert_char(c),
            InsertKey::Newline => self.insert_newline(),
            InsertKey::Backspace => self.delete_before(),
        }
    }

    /// Recorded keys, typed again.
    pub open spec fn retyped(self, keys: Seq<InsertKey>) -> Doc
        decreases keys.len(),
    {
        if keys.len() == 0 {
            self
        } else {
            self.retyped(keys.drop_last()).retype(keys.last())
        }
    }
}

fn retype(buf: &mut Buffer, keys: &Vec<InsertKey>)
    requires
        old(buf)@.wf(),
    ensures
        final(buf)@ == old(buf)@.retyped(keys@),
        final(buf)@.wf(),
{
    let ghost d = buf@;
    let mut i: usize = 0;
    proof {
        assert(keys@.take(0) =~= Seq::empty());
    }
    while i < keys.len()
        invariant
            i <= keys.len(),
            buf@ == d.retyped(keys@.take(i as int)),
            buf@.wf(),
        decreases keys.len() - i,
    {
        proof {
            let t = keys@.take(i + 1);
            assert(t.drop_last() =~= keys@.take(i as int));
            assert(t.last() == keys@[i as int]);
        }
        match keys[i] {
            InsertKey::Char(c) => buf.insert_char(c),
            InsertKey::Newline => buf.insert_newline(),
            InsertKey::Backspace => buf.delete_char_before(),
        }
        i = i + 1;
    }
    proof {
        assert(keys@.take(i as int) =~= keys@);
    }
}

impl Desk {
    /// Repeats the last change, with a count of its own where one is given.
    pub open spec fn replay(self, count: u32, rest: Seq<char>) -> (Desk, Cmds) {
        match self.last_change {
            None => (self.saying(Level::Error, "nothing to repeat"@), Seq::empty()),
            Some(LastChange::Expr(e)) => {
                let (d, c) = self.expr(recounted(e, count), rest);
                d.run_cmds(c)
            },
            Some(LastChange::Insert { trigger, keys }) => {
                let (d, c) = self.expr(recounted(trigger, count), rest);
                let (e, out) = d.run_cmds(c);
                (e.with_doc(e.doc.retyped(keys)).entered(Mode::Normal), out)
            },
        }
    }

    /// What is remembered of an expression that can change the text: one that
    /// starts insert mode begins a recording, any other is the last change.
    pub open spec fn remembering(self, e: Expr, cmds: Cmds) -> Desk {
        if !expr_edits(e) {
            self
        } else if enters_insert(cmds) {
            Desk { recording: Some(InsertRecording { trigger: e, keys: Seq::empty() }), ..self }
        } else {
            Desk { last_change: Some(LastChange::Expr(e)), recording: None, ..self }
        }
    }

    /// An expression, with all that follows from it.
    pub open spec fn evaluate(self, e: Expr, rest: Seq<char>) -> (Desk, Cmds) {
        match e {
            Expr::Direct { kind: DirectKind::RepeatLast, count } => self.replay(count, rest),
            _ => {
                let (d, c) = self.expr(e, rest);
                d.remembering(e, c).run_cmds(c)
            },
        }
    }
}

fn copy_keys(v: &Vec<InsertKey>) -> (r: Vec<InsertKey>)
    ensures
        r@ == v@,
{
    let mut out: Vec<InsertKey> = Vec::new();
    let mut i: usize = 0;
    while i < v.len()
        invariant
            i <= v.len(),
            out@ == v@.take(i as int),
        decreases v.len() - i,
    {
        out.push(v[i]);
        proof {
            assert(v@.take(i + 1) =~= v@.take(i as int).push(v@[i as int]));
        }
        i = i + 1;
    }
    proof {
        assert(v@.take(i as int) =~= v@);
    }
    out
}

impl App {
    /// Repeats the last change, with a count of its own where one is given.
    /// Commands that need something from outside are handed back.
    pub fn replay_last_change(&mut self, count: u32, ctx: Ctx) -> (r: Vec<Cmd>)
        requires
            old(self).wf(),
            old(self)@.anchor is None,
        ensures
            (final(self)@, cmds_of(r@)) == old(self)@.replay(count, ctx.rest@),
            final(self).wf(),
    {
        let (expr, keys) = match &self.last_change {
            None => {
                self.say(Level::Error, "nothing to repeat");
                return none();
            },
            Some(LastChange::Expr(e)) => (*e, None),
            Some(LastChange::Insert { trigger, keys }) => (*trigger, Some(copy_keys(keys))),
        };
        let cmds = self.handle_expr(override_count(expr, count), ctx);
        let out = self.run_cmds(cmds);
        if let Some(keys) = keys {
            retype(&mut self.buffer, &keys);
            self.visual_anchor = None;
            self.enter_mode(Mode::Normal);
        }
        out
    }

    /// Evaluates an expression. Commands that need something from outside are
    /// handed back.
    pub fn evaluate(&mut self, expr: Expr, ctx: Ctx) -> (r: Vec<Cmd>)
        requires
            old(self).wf(),
            old(self)@.anchor is None,
        ensures
            (final(self)@, cmds_of(r@)) == old(self)@.evaluate(expr, ctx.rest@),
            final(self).sound(),
            stays_placed(old(self)@, expr) ==> final(self).wf(),
    {
        if let Expr::Direct { kind: DirectKind::RepeatLast, count } = expr {
            return self.replay_last_change(count, ctx);
        }
        let modifies = expr_modifies_buffer(&expr);
        let cmds = self.handle_expr(expr, ctx);
        if modifies {
            if starts_insert(&cmds) {
                let rec: InsertRecording = InsertRecording { trigger: expr, keys: Vec::new() };
                proof {
                    assert(rec@.keys =~= Seq::empty());
                }
                self.recording = Some(rec);
            } else {
                self.last_change = Some(LastChange::Expr(expr));
                self.recording = None;
            }
        }
        if cmds.len() == 0 {
            assert(cmds_of(cmds@) =~= Seq::empty());
            return cmds;
        }
        self.run_cmds(cmds)
    }
}

/// The end of a text without the white space behind it.
pub open spec fn ink_end(s: Seq<char>, k: int) -> int
    decreases k,
{
    if 0 < k <= s.len() && white_space(s[k - 1]) {
        ink_end(s, k - 1)
    } else {
        k
    }
}

/// A text without the white space around it.
pub open spec fn trimmed(s: Seq<char>) -> Seq<char> {
    let a = skip_space(s, 0);
    let b = ink_end(s, s.len() as int);
    if a >= b {
        Seq::empty()
    } else {
        s.subrange(a, b)
    }
}

fn trim_slice(cs: &Vec<char>) -> (r: String)
    ensures
        r@ == trimmed(cs@),
{
    let a = skip_blanks(cs, 0);
    let mut b: usize = cs.len();
    while b > 0
        invariant
            b <= cs.len(),
            ink_end(cs@, cs@.len() as int) == ink_end(cs@, b as int),
        ensures
            b <= cs.len(),
            ink_end(cs@, cs@.len() as int) == b,
        decreases b,
    {
        if !cs[b - 1].is_whitespace() {
            break;
        }
        b = b - 1;
    }
    if a >= b {
        proof {
            reveal_strlit("");
        }
        return String::new();
    }
    string_slice(cs, a, b)
}

/// A text without the white space around it.
pub fn trim(s: &str) -> (r: String)
    ensures
        r@ == trimmed(s@),
{
    trim_slice(&chars_of(s))
}

/// The place of the first space at or after `i`, or the end.
pub open spec fn space_from(s: Seq<char>, i: int) -> int
    decreases s.len() - i,
{
    if 0 <= i < s.len() && s[i] != ' ' {
        space_from(s, i + 1)
    } else {
        i
    }
}

/// A command line: the word up to its first space, and the rest of it without
/// the white space around.
pub open spec fn command_parts(s: Seq<char>) -> (Seq<char>, Seq<char>) {
    let k = space_from(s, 0);
    if k >= s.len() {
        (s, Seq::empty())
    } else {
        (s.take(k), trimmed(s.skip(k + 1)))
    }
}

fn split_command(cmd: &str) -> (r: (String, String))
    ensures
        (r.0@, r.1@) == command_parts(cmd@),
{
    let cs = chars_of(cmd);
    let mut k: usize = 0;
    while k < cs.len()
        invariant
            k <= cs.len(),
            space_from(cs@, 0) == space_from(cs@, k as int),
        ensures
            k <= cs.len(),
            space_from(cs@, 0) == k,
        decreases cs.len() - k,
    {
        if cs[k] == ' ' {
            break;
        }
        k = k + 1;
    }
    if k >= cs.len() {
        proof {
            reveal_strlit("");
        }
        return (copy_str(cmd), String::new());
    }
    let head = string_slice(&cs, 0, k);
    let tail = crate::text::slice_chars(&cs, k + 1, cs.len());
    proof {
        assert(head@ =~= cmd@.take(k as int));
        assert(tail@ =~= cmd@.skip(k + 1));
    }
    (head, trim_slice(&tail))
}

impl Desk {
    /// A command line. A number alone goes to that line.
    pub open spec fn command(self, s: Seq<char>) -> (Desk, Cmds) {
        let (head, rest) = command_parts(s);
        if number_in(s) is Some {
            self.evaluate((Expr::Direct { kind: DirectKind::GotoLine, count: 1 }), s)
        } else if head.len() == 0 {
            (self, Seq::empty())
        } else {
            match command_named(command_table(), head, 0) {
                Some(b) => self.evaluate((Expr::Direct { kind: b.kind, count: 1 }), rest),
                None => (self.saying(Level::Error, "unknown command: "@ + head), Seq::empty()),
            }
        }
    }

    /// A key in normal mode: it joins the tokens before it, and a complete
    /// command is evaluated.
    pub open spec fn normal_key(self, key: KeyEvent) -> (Desk, Cmds) {
        let cleared = Desk { tokens: Seq::empty(), ..self };
        match key_token(self.config.keymap, self.tokens, key) {
            None => (cleared, Seq::empty()),
            Some(t) => {
                let tokens = self.tokens.push(t);
                match parsed(tokens) {
                    Parse::Complete(e) => cleared.evaluate(e, ""@),
                    Parse::Incomplete => (Desk { tokens, ..self }, Seq::empty()),
                    Parse::Invalid => (cleared, Seq::empty()),
                }
            },
        }
    }
}

impl App {
    /// Runs a command line. Commands that need something from outside are
    /// handed back.
    pub fn execute_command(&mut self, cmd: &str) -> (r: Vec<Cmd>)
        requires
            old(self).wf(),
            old(self)@.anchor is None,
        ensures
            (final(self)@, cmds_of(r@)) == old(self)@.command(cmd@),
            final(self).sound(),
            old(self)@.last_extra_holds() ==> final(self).wf(),
    {
        if parse_usize(cmd).is_some() {
            return self.evaluate(Expr::Direct { kind: DirectKind::GotoLine, count: 1 }, Ctx::with_rest(cmd));
        }
        let (head, rest) = split_command(cmd);
        if crate::app::eval::handle::is_empty(head.as_str()) {
            return none();
        }
        match CommandBind::find(head.as_str()) {
            Some(b) => self.evaluate(Expr::Direct { kind: b.kind, count: 1 }, Ctx::with_rest(rest.as_str())),
            None => {
                let mut m = copy_str("unknown command: ");
                push_str(&mut m, head.as_str());
                self.say(Level::Error, m.as_str());
                none()
            },
        }
    }

    /// Takes a key in normal mode. Commands that need something from outside
    /// are handed back.
    pub fn handle_normal_key(&mut self, key: KeyEvent) -> (r: Vec<Cmd>)
        requires
            old(self).wf(),
            old(self)@.anchor is None,
        ensures
            (final(self)@, cmds_of(r@)) == old(self)@.normal_key(key),
            final(self).sound(),
            old(self)@.last_extra_holds() ==> final(self).wf(),
    {
        let ghost desk = self@;
        match tokenize(&self.config.keymap, &self.tokens, key) {
            Some(t) => self.tokens.push(t),
            None => {
                self.tokens = Vec::new();
                return none();
            },
        }
        match classify(&self.tokens) {
            Parse::Complete(expr) => {
                self.tokens = Vec::new();
                self.evaluate(expr, Ctx::default())
            },
            Parse::Incomplete => none(),
            Parse::Invalid => {
                self.tokens = Vec::new();
                none()
            },
        }
    }
}

} // verus!
