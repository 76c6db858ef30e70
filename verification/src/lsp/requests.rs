//! What the servers are asked, and the edits they ask for.
use vstd::prelude::*;
use crate::editor::Cursor;
use crate::lsp::coordinator::{copy_diagnostic, Board, LspCoordinator, SliceView};
use crate::lsp::edits::{apply_text_edits, edited_all, starts_before};
use crate::lsp::group::{AccumView, GroupAccum, LspRequestKind};
use crate::lsp::{edits_of, Diagnostic, TextEdit, WorkspaceEdit};
use crate::text::{copy_str, join, join_lines, same_str, split, split_lines, text_of};

verus! {

/// What goes with a request.
#[derive(Debug)]
pub enum Params<S = String, D = Vec<Diagnostic>> {
    /// A place in a document.
    Position { uri: S, line: u64, character: u64 },
    /// The same, with the declaration among what is looked for.
    References { uri: S, line: u64, character: u64 },
    /// A place and what was found there.
    Found { uri: S, line: u64, character: u64, diagnostics: D },
    /// A place and the character that asked for completions, if any.
    Completion { uri: S, line: u64, character: u64, trigger: Option<char> },
    Rename { uri: S, line: u64, character: u64, new_name: S },
    /// An item as it came from the server.
    Raw(S),
}

pub type ParamsView = Params<Seq<char>, Seq<Diagnostic>>;

impl View for Params {
    type V = ParamsView;

    open spec fn view(&self) -> ParamsView {
        match self {
            Params::Position { uri, line, character } => Params::Position {
                uri: uri@,
                line: *line,
                character: *character,
            },
            Params::References { uri, line, character } => Params::References {
                uri: uri@,
                line: *line,
                character: *character,
            },
            Params::Found { uri, line, character, diagnostics } => Params::Found {
                uri: uri@,
                line: *line,
                character: *character,
                diagnostics: diagnostics@,
            },
            Params::Completion { uri, line, character, trigger } => Params::Completion {
                uri: uri@,
                line: *line,
                character: *character,
                trigger: *trigger,
            },
            Params::Rename { uri, line, character, new_name } => Params::Rename {
                uri: uri@,
                line: *line,
                character: *character,
                new_name: new_name@,
            },
            Params::Raw(s) => Params::Raw(s@),
        }
    }
}

/// A request: the clients that it goes to, what it says, and where the
/// answers are gathered.
#[derive(Debug)]
pub struct Call<S = String, T = Vec<String>, P = Params, A = GroupAccum> {
    pub method: S,
    pub targets: T,
    pub params: P,
    pub kind: LspRequestKind,
    pub accum: A,
}

pub type CallView = Call<Seq<char>, Seq<Seq<char>>, ParamsView, AccumView>;

impl View for Call {
    type V = CallView;

    open spec fn view(&self) -> CallView {
        Call {
            method: self.method@,
            targets: text_of(self.targets@),
            params: self.params@,
            kind: self.kind,
            accum: self.accum@,
        }
    }
}

/// The first `k` names of those that run.
pub open spec fn running(b: Board, k: int) -> Seq<Seq<char>>
    decreases k,
{
    if k <= 0 {
        Seq::empty()
    } else if b.runs(b.current[k - 1]) {
        running(b, k - 1).push(b.current[k - 1])
    } else {
        running(b, k - 1)
    }
}

/// Whether a finding touches a row.
pub open spec fn touches(d: Diagnostic, row: usize) -> bool {
    d.range.start.line <= (row as u32) && (row as u32) <= d.range.end.line
}

/// The first `k` findings of those that touch a row.
pub open spec fn touching(s: Seq<Diagnostic>, row: usize, k: int) -> Seq<Diagnostic>
    decreases k,
{
    if k <= 0 {
        Seq::empty()
    } else if touches(s[k - 1], row) {
        touching(s, row, k - 1).push(s[k - 1])
    } else {
        touching(s, row, k - 1)
    }
}

/// What the clients found in a document, of the first `k` lists.
pub open spec fn gathered(s: Seq<SliceView>, uri: Seq<char>, k: int) -> Seq<Diagnostic>
    decreases k,
{
    if k <= 0 {
        Seq::empty()
    } else if s[k - 1].uri == uri {
        gathered(s, uri, k - 1) + s[k - 1].items
    } else {
        gathered(s, uri, k - 1)
    }
}

/// Puts a finding behind all those that do not start after it.
pub open spec fn put(s: Seq<Diagnostic>, x: Diagnostic) -> Seq<Diagnostic>
    decreases s.len(),
{
    if s.len() == 0 || !starts_before(x.range.start, s.last().range.start) {
        s.push(x)
    } else {
        put(s.drop_last(), x).push(s.last())
    }
}

/// The first `k` findings by where they start; those that start at one place
/// stay in order.
pub open spec fn by_start(s: Seq<Diagnostic>, k: int) -> Seq<Diagnostic>
    decreases k,
{
    if k <= 0 {
        Seq::empty()
    } else {
        put(by_start(s, k - 1), s[k - 1])
    }
}

pub open spec fn starts_in_order(s: Seq<Diagnostic>) -> bool {
    forall|i: int, j: int|
        0 <= i < j < s.len() ==> !starts_before(#[trigger] s[j].range.start, #[trigger] s[i].range.start)
}

proof fn lemma_put(s: Seq<Diagnostic>, x: Diagnostic)
    ensures
        put(s, x).to_multiset() =~= s.to_multiset().insert(x),
        put(s, x).len() == s.len() + 1,
        starts_in_order(s) ==> starts_in_order(put(s, x)),
    decreases s.len(),
{
    if s.len() == 0 || !starts_before(x.range.start, s.last().range.start) {
        s.to_multiset_ensures();
        if starts_in_order(s) && s.len() > 0 {
            assert forall|i: int, j: int| 0 <= i < j < s.push(x).len() implies !starts_before(
                #[trigger] s.push(x)[j].range.start,
                #[trigger] s.push(x)[i].range.start,
            ) by {
                if j == s.len() && i < s.len() - 1 {
                    assert(!starts_before(s[s.len() - 1].range.start, s[i].range.start));
                }
            }
        }
    } else {
        let t = s.drop_last();
        lemma_put(t, x);
        put(t, x).to_multiset_ensures();
        t.to_multiset_ensures();
        assert(s =~= t.push(s.last()));
        assert(put(s, x).to_multiset() =~= put(t, x).to_multiset().insert(s.last()));
        assert(s.to_multiset() =~= t.to_multiset().insert(s.last()));
        if starts_in_order(s) {
            assert(starts_in_order(t)) by {
                assert forall|i: int, j: int| 0 <= i < j < t.len() implies !starts_before(
                    #[trigger] t[j].range.start,
                    #[trigger] t[i].range.start,
                ) by {
                    assert(t[i] == s[i] && t[j] == s[j]);
                }
            }
            let p = put(t, x);
            assert forall|i: int| 0 <= i < p.len() implies !starts_before(
                s.last().range.start,
                (#[trigger] p[i]).range.start,
            ) by {
                assert(p.to_multiset().count(p[i]) > 0) by {
                    assert(p.contains(p[i]));
                }
                assert(t.to_multiset().insert(x).count(p[i]) > 0);
                if p[i] != x {
                    assert(t.contains(p[i]));
                    let m = choose|m: int| 0 <= m < t.len() && t[m] == p[i];
                    assert(s[m] == p[i]);
                }
            }
        }
    }
}

/// The findings that are shown are those that there are, in the order of
/// where they start.
pub proof fn law_by_start(s: Seq<Diagnostic>, k: int)
    requires
        0 <= k <= s.len(),
    ensures
        by_start(s, k).to_multiset() == s.take(k).to_multiset(),
        starts_in_order(by_start(s, k)),
    decreases k,
{
    if k > 0 {
        law_by_start(s, k - 1);
        lemma_put(by_start(s, k - 1), s[k - 1]);
        s.take(k - 1).to_multiset_ensures();
        assert(s.take(k) =~= s.take(k - 1).push(s[k - 1]));
    } else {
        assert(s.take(k) =~= Seq::empty());
    }
}

impl Board {
    pub open spec fn open_uri(self) -> Seq<char> {
        match self.uri {
            Some(u) => u,
            None => ""@,
        }
    }

    pub open spec fn targets(self) -> Seq<Seq<char>> {
        running(self, self.current.len() as int)
    }

    /// The client that an item goes back to: the one it came from, else the
    /// first of the document. None where that one does not run.
    pub open spec fn target_for(self, source: Seq<char>) -> Option<Seq<char>> {
        if self.runs(source) {
            Some(source)
        } else if self.current.len() > 0 && self.runs(self.current[0]) {
            Some(self.current[0])
        } else {
            None
        }
    }

    pub open spec fn place_params(self, c: Cursor) -> ParamsView {
        Params::Position { uri: self.open_uri(), line: c.row as u64, character: c.col as u64 }
    }

    /// What was found in the open document.
    pub open spec fn diagnostics(self) -> Option<Seq<Diagnostic>> {
        match self.uri {
            None => None,
            Some(u) => {
                let all = gathered(self.found, u, self.found.len() as int);
                if all.len() == 0 {
                    None
                } else {
                    Some(by_start(all, all.len() as int))
                }
            },
        }
    }
}

fn insert_found(out: &mut Vec<Diagnostic>, x: Diagnostic)
    ensures
        final(out)@ == put(old(out)@, x),
{
    let ghost s = out@;
    let mut k: usize = out.len();
    proof {
        assert(s.take(k as int) =~= s);
        assert(put(s, x) =~= put(s.take(k as int), x) + s.skip(k as int));
    }
    while k > 0
        invariant
            k <= out.len(),
            s == out@,
            put(s, x) == put(s.take(k as int), x) + s.skip(k as int),
        ensures
            k <= out.len(),
            s == out@,
            put(s, x) == s.take(k as int).push(x) + s.skip(k as int),
        decreases k,
    {
        let p = x.range.start;
        let q = out[k - 1].range.start;
        let before = p.line < q.line || (p.line == q.line && p.character < q.character);
        proof {
            assert(s.take(k as int).last() == s[k - 1]);
            assert(s.take(k as int).drop_last() =~= s.take(k - 1));
        }
        if !before {
            break;
        }
        proof {
            assert(put(s, x) =~= put(s.take(k - 1), x) + s.skip(k - 1));
        }
        k = k - 1;
    }
    out.insert(k, x);
    proof {
        assert(out@ =~= s.take(k as int).push(x) + s.skip(k as int));
    }
}

impl LspCoordinator {
    /// What was found in the open document by all clients, by where it
    /// starts.
    pub fn current_diagnostics(&self) -> (r: Option<Vec<Diagnostic>>)
        ensures
            match (r, self@.diagnostics()) {
                (Some(v), Some(s)) => v@ == s,
                (None, None) => true,
                _ => false,
            },
    {
        let uri = match &self.current_uri {
            None => {
                return None;
            },
            Some(u) => u,
        };
        let ghost found = self@.found;
        assert(found.len() == self.diagnostics@.len());
        let mut all: Vec<Diagnostic> = Vec::new();
        let mut i: usize = 0;
        while i < self.diagnostics.len()
            invariant
                i <= self.diagnostics.len(),
                found == self@.found,
                all@ == gathered(found, uri@, i as int),
            decreases self.diagnostics.len() - i,
        {
            assert(found[i as int] == self.diagnostics@[i as int]@);
            if same_str(self.diagnostics[i].uri.as_str(), uri.as_str()) {
                let items = &self.diagnostics[i].items;
                let ghost before = all@;
                assert(all@ =~= before + items@.take(0));
                let mut j: usize = 0;
                while j < items.len()
                    invariant
                        j <= items.len(),
                        all@ == before + items@.take(j as int),
                    decreases items.len() - j,
                {
                    all.push(copy_diagnostic(&items[j]));
                    proof {
                        assert(items@.take(j + 1) =~= items@.take(j as int).push(items@[j as int]));
                        assert(all@ =~= before + items@.take(j + 1));
                    }
                    j = j + 1;
                }
                assert(items@.take(j as int) =~= items@);
            }
            i = i + 1;
        }
        if all.len() == 0 {
            return None;
        }
        let mut out: Vec<Diagnostic> = Vec::new();
        let mut k: usize = 0;
        assert(out@ =~= by_start(all@, 0));
        while k < all.len()
            invariant
                k <= all.len(),
                out@ == by_start(all@, k as int),
            decreases all.len() - k,
        {
            insert_found(&mut out, copy_diagnostic(&all[k]));
            k = k + 1;
        }
        Some(out)
    }

    fn open_uri(&self) -> (r: String)
        ensures
            r@ == self@.open_uri(),
    {
        match &self.current_uri {
            Some(u) => u.clone(),
            None => copy_str(""),
        }
    }

    /// The clients of the open document that run.
    pub fn targets(&self) -> (r: Vec<String>)
        ensures
            text_of(r@) == self@.targets(),
    {
        let ghost b = self@;
        assert(b.current.len() == self.current_clients@.len());
        let mut out: Vec<String> = Vec::new();
        let mut i: usize = 0;
        assert(text_of(out@) =~= running(b, 0));
        while i < self.current_clients.len()
            invariant
                i <= self.current_clients.len(),
                b == self@,
                text_of(out@) == running(b, i as int),
            decreases self.current_clients.len() - i,
        {
            assert(b.current[i as int] == self.current_clients@[i as int]@);
            if self.has_client(self.current_clients[i].as_str()) {
                let ghost before = out@;
                let n = self.current_clients[i].clone();
                out.push(n);
                proof {
                    assert(text_of(out@) =~= text_of(before).push(n@));
                }
            }
            i = i + 1;
        }
        out
    }

    /// The open document and the clients to tell of a change or a save.
    pub fn listeners(&self) -> (r: Option<(String, Vec<String>)>)
        ensures
            match (r, self@.uri) {
                (Some((u, v)), Some(w)) => u@ == w && text_of(v@) == self@.targets(),
                (None, None) => true,
                _ => false,
            },
    {
        match &self.current_uri {
            Some(u) => Some((u.clone(), self.targets())),
            None => None,
        }
    }

    /// The open document and the client that formats it: the first of its
    /// clients, where that one runs.
    pub fn formatting_client(&self) -> (r: Option<(String, String)>)
        ensures
            match r {
                Some((u, k)) => self@.uri == Some(u@) && self@.current.len() > 0 && k@ == self@.current[0]
                    && self@.runs(k@),
                None => self@.uri is None || self@.current.len() == 0 || !self@.runs(self@.current[0]),
            },
    {
        assert(self@.current.len() == self.current_clients@.len());
        match &self.current_uri {
            None => None,
            Some(u) => {
                if self.current_clients.len() == 0 {
                    return None;
                }
                assert(self@.current[0] == self.current_clients@[0]@);
                if !self.has_client(self.current_clients[0].as_str()) {
                    return None;
                }
                Some((u.clone(), self.current_clients[0].clone()))
            },
        }
    }

    fn place_params(&self, c: Cursor) -> (r: Params)
        ensures
            r@ == self@.place_params(c),
    {
        Params::Position { uri: self.open_uri(), line: c.row as u64, character: c.col as u64 }
    }

    /// Asks for a place to go to.
    pub fn request_jump(&self, method: &str, label: &str, cursor: Cursor) -> (r: Call)
        ensures
            r@ == (CallView {
                method: method@,
                targets: self@.targets(),
                params: self@.place_params(cursor),
                kind: LspRequestKind::Jump,
                accum: AccumView::Jump { label: label@, locations: Seq::empty() },
            }),
    {
        let r = Call {
            method: copy_str(method),
            targets: self.targets(),
            params: self.place_params(cursor),
            kind: LspRequestKind::Jump,
            accum: GroupAccum::Jump { label: copy_str(label), locations: Vec::new() },
        };
        assert(r@.accum->Jump_locations =~= Seq::empty());
        r
    }

    /// Asks for the places where a name is used, its declaration among them.
    pub fn request_references(&self, cursor: Cursor) -> (r: Call)
        ensures
            r@ == (CallView {
                method: "textDocument/references"@,
                targets: self@.targets(),
                params: ParamsView::References {
                    uri: self@.open_uri(),
                    line: cursor.row as u64,
                    character: cursor.col as u64,
                },
                kind: LspRequestKind::References,
                accum: AccumView::References(Seq::empty()),
            }),
    {
        let r = Call {
            method: copy_str("textDocument/references"),
            targets: self.targets(),
            params: Params::References { uri: self.open_uri(), line: cursor.row as u64, character: cursor.col as u64 },
            kind: LspRequestKind::References,
            accum: GroupAccum::References(Vec::new()),
        };
        assert(r@.accum->References_0 =~= Seq::empty());
        r
    }

    /// Asks what can be done at a place. Of the findings, those that touch
    /// the row go with the request.
    pub fn request_code_action(&self, cursor: Cursor, diagnostics: &Vec<Diagnostic>) -> (r: Call)
        ensures
            r@ == (CallView {
                method: "textDocument/codeAction"@,
                targets: self@.targets(),
                params: ParamsView::Found {
                    uri: self@.open_uri(),
                    line: cursor.row as u64,
                    character: cursor.col as u64,
                    diagnostics: touching(diagnostics@, cursor.row, diagnostics@.len() as int),
                },
                kind: LspRequestKind::CodeAction,
                accum: AccumView::CodeAction(Seq::empty()),
            }),
    {
        let mut near: Vec<Diagnostic> = Vec::new();
        let mut i: usize = 0;
        assert(near@ =~= touching(diagnostics@, cursor.row, 0));
        let row = cursor.row as u32;
        while i < diagnostics.len()
            invariant
                i <= diagnostics.len(),
                row == cursor.row as u32,
                near@ == touching(diagnostics@, cursor.row, i as int),
            decreases diagnostics.len() - i,
        {
            if diagnostics[i].range.start.line <= row && row <= diagnostics[i].range.end.line {
                near.push(copy_diagnostic(&diagnostics[i]));
            }
            i = i + 1;
        }
        let r = Call {
            method: copy_str("textDocument/codeAction"),
            targets: self.targets(),
            params: Params::Found {
                uri: self.open_uri(),
                line: cursor.row as u64,
                character: cursor.col as u64,
                diagnostics: near,
            },
            kind: LspRequestKind::CodeAction,
            accum: GroupAccum::CodeAction(Vec::new()),
        };
        assert(r@.accum->CodeAction_0 =~= Seq::empty());
        r
    }

    /// Asks what is known of the name at a place.
    pub fn request_hover(&self, cursor: Cursor) -> (r: Call)
        ensures
            r@ == (CallView {
                method: "textDocument/hover"@,
                targets: self@.targets(),
                params: self@.place_params(cursor),
                kind: LspRequestKind::Hover,
                accum: AccumView::Hover(Seq::empty()),
            }),
    {
        let r = Call {
            method: copy_str("textDocument/hover"),
            targets: self.targets(),
            params: self.place_params(cursor),
            kind: LspRequestKind::Hover,
            accum: GroupAccum::Hover(Vec::new()),
        };
        assert(r@.accum->Hover_0 =~= Seq::empty());
        r
    }

    /// Asks for completions. `trigger` is the character that was typed, where
    /// a server has named it as one that asks for them.
    pub fn request_completion(&self, cursor: Cursor, prefix_start: Cursor, trigger: Option<char>) -> (r: Call)
        ensures
            r@ == (CallView {
                method: "textDocument/completion"@,
                targets: self@.targets(),
                params: ParamsView::Completion {
                    uri: self@.open_uri(),
                    line: cursor.row as u64,
                    character: cursor.col as u64,
                    trigger,
                },
                kind: LspRequestKind::Completion,
                accum: AccumView::Completion { prefix_start, items: Seq::empty() },
            }),
    {
        let r = Call {
            method: copy_str("textDocument/completion"),
            targets: self.targets(),
            params: Params::Completion {
                uri: self.open_uri(),
                line: cursor.row as u64,
                character: cursor.col as u64,
                trigger,
            },
            kind: LspRequestKind::Completion,
            accum: GroupAccum::Completion { prefix_start, items: Vec::new() },
        };
        assert(r@.accum->Completion_items =~= Seq::empty());
        r
    }

    /// Asks for another name.
    pub fn request_rename(&self, new_name: &str, cursor: Cursor) -> (r: Call)
        ensures
            r@ == (CallView {
                method: "textDocument/rename"@,
                targets: self@.targets(),
                params: ParamsView::Rename {
                    uri: self@.open_uri(),
                    line: cursor.row as u64,
                    character: cursor.col as u64,
                    new_name: new_name@,
                },
                kind: LspRequestKind::Rename,
                accum: AccumView::Rename { new_name: new_name@, edit: None },
            }),
    {
        Call {
            method: copy_str("textDocument/rename"),
            targets: self.targets(),
            params: Params::Rename {
                uri: self.open_uri(),
                line: cursor.row as u64,
                character: cursor.col as u64,
                new_name: copy_str(new_name),
            },
            kind: LspRequestKind::Rename,
            accum: GroupAccum::Rename { new_name: copy_str(new_name), edit: None },
        }
    }

    fn target_for(&self, source: &str) -> (r: Vec<String>)
        ensures
            text_of(r@) == match self@.target_for(source@) {
                Some(k) => seq![k],
                None => Seq::empty(),
            },
    {
        assert(self@.current.len() == self.current_clients@.len());
        let mut v: Vec<String> = Vec::new();
        if self.has_client(source) {
            v.push(copy_str(source));
            assert(text_of(v@) =~= seq![source@]);
        } else if self.current_clients.len() > 0 {
            assert(self@.current[0] == self.current_clients@[0]@);
            if self.has_client(self.current_clients[0].as_str()) {
                v.push(self.current_clients[0].clone());
                assert(text_of(v@) =~= seq![self@.current[0]]);
            } else {
                assert(text_of(v@) =~= Seq::empty());
            }
        } else {
            assert(text_of(v@) =~= Seq::empty());
        }
        v
    }

    /// Asks the client that an item came from to fill it in. `item_index` is
    /// its place in the menu, and none where it was accepted.
    pub fn request_completion_resolve(&self, raw: &str, source: &str, item_index: Option<usize>) -> (r: Call)
        ensures
            r@ == (CallView {
                method: "completionItem/resolve"@,
                targets: match self@.target_for(source@) {
                    Some(k) => seq![k],
                    None => Seq::empty(),
                },
                params: ParamsView::Raw(raw@),
                kind: LspRequestKind::CompletionResolve,
                accum: AccumView::CompletionResolve { uri: self@.open_uri(), item_index, item: None },
            }),
    {
        Call {
            method: copy_str("completionItem/resolve"),
            targets: self.target_for(source),
            params: Params::Raw(copy_str(raw)),
            kind: LspRequestKind::CompletionResolve,
            accum: GroupAccum::CompletionResolve { uri: self.open_uri(), item_index, item: None },
        }
    }

    /// Asks the client that an action came from to fill it in.
    pub fn request_code_action_resolve(&self, action: &str, source: &str) -> (r: Call)
        ensures
            r@ == (CallView {
                method: "codeAction/resolve"@,
                targets: match self@.target_for(source@) {
                    Some(k) => seq![k],
                    None => Seq::empty(),
                },
                params: ParamsView::Raw(action@),
                kind: LspRequestKind::CodeActionResolve,
                accum: AccumView::CodeActionResolve { action: None },
            }),
    {
        Call {
            method: copy_str("codeAction/resolve"),
            targets: self.target_for(source),
            params: Params::Raw(copy_str(action)),
            kind: LspRequestKind::CodeActionResolve,
            accum: GroupAccum::CodeActionResolve { action: None },
        }
    }
}

/// What an edit of several documents comes to: the edits of the open one, and
/// those of the others, each by its URI.
#[derive(Debug)]
pub struct WorkspaceEditResult {
    pub current_buffer_edits: Vec<TextEdit>,
    pub other_edits: Vec<(String, Vec<TextEdit>)>,
    pub files_touched: usize,
    pub total_edits: u128,
}

/// How many edits the first `k` documents have.
pub open spec fn edit_count(s: Seq<(String, Vec<TextEdit>)>, k: int) -> int
    decreases k,
{
    if k <= 0 {
        0
    } else {
        edit_count(s, k - 1) + s[k - 1].1@.len()
    }
}

/// The edits of the open document, of the first `k`. The last list counts.
pub open spec fn edits_here(s: Seq<(String, Vec<TextEdit>)>, uri: Option<Seq<char>>, k: int) -> Seq<TextEdit>
    decreases k,
{
    if k <= 0 {
        Seq::empty()
    } else if uri == Some(s[k - 1].0@) {
        s[k - 1].1@
    } else {
        edits_here(s, uri, k - 1)
    }
}

/// The edits of the other documents, of the first `k`.
pub open spec fn edits_elsewhere(s: Seq<(String, Vec<TextEdit>)>, uri: Option<Seq<char>>, k: int) -> Seq<
    (String, Vec<TextEdit>),
>
    decreases k,
{
    if k <= 0 {
        Seq::empty()
    } else if uri == Some(s[k - 1].0@) {
        edits_elsewhere(s, uri, k - 1)
    } else {
        edits_elsewhere(s, uri, k - 1).push(s[k - 1])
    }
}

impl WorkspaceEdit {
    /// Whether a result is what the edit comes to with a document open.
    pub open spec fn comes_to(self, uri: Option<Seq<char>>, r: WorkspaceEditResult) -> bool {
        let n = self.changes@.len() as int;
        &&& r.current_buffer_edits@ == edits_here(self.changes@, uri, n)
        &&& r.other_edits@ == edits_elsewhere(self.changes@, uri, n)
        &&& r.files_touched == n
        &&& r.total_edits == edit_count(self.changes@, n)
    }
}

/// Splits an edit of several documents by whether it is of the open one.
pub fn plan_workspace_edit(edit: WorkspaceEdit, uri: Option<&str>) -> (r: WorkspaceEditResult)
    ensures
        edit.comes_to(
            match uri {
                Some(u) => Some(u@),
                None => None,
            },
            r,
        ),
{
    let ghost s = edit.changes@;
    let ghost u = match uri {
        Some(u) => Some(u@),
        None => None,
    };
    let files = edit.changes.len();
    let ghost n = files as int;
    let mut rest = edit.changes;
    let mut stack: Vec<(String, Vec<TextEdit>)> = Vec::new();
    while rest.len() > 0
        invariant
            rest@.len() + stack@.len() == n == s.len(),
            forall|i: int| 0 <= i < rest@.len() ==> rest@[i] == s[i],
            forall|i: int| 0 <= i < stack@.len() ==> (#[trigger] stack@[i]) == s[n - 1 - i],
        decreases rest.len(),
    {
        if let Some(c) = rest.pop() {
            stack.push(c);
        }
    }
    let mut here: Vec<TextEdit> = Vec::new();
    let mut others: Vec<(String, Vec<TextEdit>)> = Vec::new();
    let mut total: u128 = 0;
    let ghost mut done: int = 0;
    assert(here@ =~= edits_here(s, u, 0));
    assert(others@ =~= edits_elsewhere(s, u, 0));
    while stack.len() > 0
        invariant
            0 <= done <= n,
            n == s.len() == files,
            stack@.len() == n - done,
            forall|i: int| 0 <= i < stack@.len() ==> (#[trigger] stack@[i]) == s[n - 1 - i],
            here@ == edits_here(s, u, done),
            others@ == edits_elsewhere(s, u, done),
            total == edit_count(s, done),
            total <= done * usize::MAX,
            u == match uri {
                Some(u) => Some(u@),
                None => None,
            },
        decreases stack.len(),
    {
        if let Some((doc, edits)) = stack.pop() {
            assert((doc, edits) == s[done]);
            proof {
                assert((done + 1) * usize::MAX <= usize::MAX * usize::MAX) by (nonlinear_arith)
                    requires
                        0 <= done,
                        done + 1 <= usize::MAX,
                ;
                assert((done + 1) * usize::MAX == done * usize::MAX + usize::MAX) by (nonlinear_arith);
                assert(usize::MAX * usize::MAX <= u128::MAX) by (nonlinear_arith)
                    requires
                        usize::MAX <= 0xffff_ffff_ffff_ffff,
                ;
            }
            total = total + edits.len() as u128;
            let open = match uri {
                Some(u) => same_str(doc.as_str(), u),
                None => false,
            };
            proof {
                done = done + 1;
            }
            if open {
                here = edits;
            } else {
                others.push((doc, edits));
            }
        }
    }
    WorkspaceEditResult { current_buffer_edits: here, other_edits: others, files_touched: files, total_edits: total }
}

/// A text with edits applied.
pub fn edit_text(text: &str, edits: Vec<TextEdit>) -> (r: String)
    ensures
        r@ == join(
            edited_all(split(text@), edits_of(edits@)),
            0,
            edited_all(split(text@), edits_of(edits@)).len() as int,
        ),
{
    let mut lines = split_lines(text);
    apply_text_edits(&mut lines, edits);
    assert(text_of(lines@).len() == lines@.len());
    let n = lines.len();
    join_lines(&lines, 0, n)
}

} // verus!
