//! Collecting the answers of several servers to one request.
use vstd::prelude::*;
use crate::editor::Cursor;
use crate::lsp::{CodeAction, CompletionItem, Hover, Location, TextEdit, WorkspaceEdit};
use crate::text::{copy_str, push_str, same_str, text_of};

verus! {

/// What a request was for.
#[derive(Debug, Clone, Copy, PartialEq, Eq, Structural)]
pub enum LspRequestKind {
    Jump,
    References,
    Rename,
    CodeAction,
    CodeActionResolve,
    Hover,
    Completion,
    CompletionResolve,
}

/// An answer as it was read.
#[derive(Debug)]
pub enum Reply {
    Locations(Vec<Location>),
    Edit(Option<WorkspaceEdit>),
    Actions(Vec<CodeAction>),
    Hover(Option<Hover>),
    Items(Vec<CompletionItem>),
    Item(Option<CompletionItem>),
    Action(Option<CodeAction>),
}

/// What was answered so far, with what the request was asked with.
#[derive(Debug)]
#[allow(inconsistent_fields)]
pub enum GroupAccum<S = String, L = Vec<Location>, A = Vec<CodeAction>, P = Vec<String>, I = Vec<CompletionItem>> {
    Jump { label: S, locations: L },
    References(L),
    /// The first edit that is given counts.
    Rename { new_name: S, edit: Option<WorkspaceEdit> },
    CodeAction(A),
    Hover(P),
    Completion { prefix_start: Cursor, items: I },
    CompletionResolve { uri: S, item_index: Option<usize>, item: Option<CompletionItem> },
    CodeActionResolve { action: Option<CodeAction> },
}

pub type AccumView = GroupAccum<Seq<char>, Seq<Location>, Seq<CodeAction>, Seq<Seq<char>>, Seq<CompletionItem>>;

impl View for GroupAccum {
    type V = AccumView;

    open spec fn view(&self) -> AccumView {
        match self {
            GroupAccum::Jump { label, locations } => GroupAccum::Jump { label: label@, locations: locations@ },
            GroupAccum::References(l) => GroupAccum::References(l@),
            GroupAccum::Rename { new_name, edit } => GroupAccum::Rename { new_name: new_name@, edit: *edit },
            GroupAccum::CodeAction(a) => GroupAccum::CodeAction(a@),
            GroupAccum::Hover(p) => GroupAccum::Hover(text_of(p@)),
            GroupAccum::Completion { prefix_start, items } => GroupAccum::Completion {
                prefix_start: *prefix_start,
                items: items@,
            },
            GroupAccum::CompletionResolve { uri, item_index, item } => GroupAccum::CompletionResolve {
                uri: uri@,
                item_index: *item_index,
                item: *item,
            },
            GroupAccum::CodeActionResolve { action } => GroupAccum::CodeActionResolve { action: *action },
        }
    }
}

/// What the editor is to do about the servers.
#[derive(Debug)]
#[allow(inconsistent_fields)]
pub enum LspEventOutcome<S = String, L = Vec<Location>, A = Vec<CodeAction>, I = Vec<CompletionItem>> {
    Nothing,
    InfoMessage(S),
    ErrorMessage(S),
    Jump { label: S, locations: L },
    References(L),
    Rename { new_name: S, edit: Option<WorkspaceEdit> },
    CodeActions(A),
    CodeActionResolved(Option<CodeAction>),
    Hover(Option<S>),
    Completion { prefix_start: Cursor, items: I },
    /// An item that its server has filled in: for the menu where it has a
    /// place there, else for the text.
    CompletionResolved { uri: S, item_index: Option<usize>, item: Option<CompletionItem> },
}

pub type OutcomeView = LspEventOutcome<Seq<char>, Seq<Location>, Seq<CodeAction>, Seq<CompletionItem>>;

impl View for LspEventOutcome {
    type V = OutcomeView;

    open spec fn view(&self) -> OutcomeView {
        match self {
            LspEventOutcome::Nothing => LspEventOutcome::Nothing,
            LspEventOutcome::InfoMessage(s) => LspEventOutcome::InfoMessage(s@),
            LspEventOutcome::ErrorMessage(s) => LspEventOutcome::ErrorMessage(s@),
            LspEventOutcome::Jump { label, locations } => LspEventOutcome::Jump {
                label: label@,
                locations: locations@,
            },
            LspEventOutcome::References(l) => LspEventOutcome::References(l@),
            LspEventOutcome::Rename { new_name, edit } => LspEventOutcome::Rename { new_name: new_name@, edit: *edit },
            LspEventOutcome::CodeActions(a) => LspEventOutcome::CodeActions(a@),
            LspEventOutcome::CodeActionResolved(a) => LspEventOutcome::CodeActionResolved(*a),
            LspEventOutcome::Hover(h) => LspEventOutcome::Hover(
                match h {
                    Some(s) => Some(s@),
                    None => None,
                },
            ),
            LspEventOutcome::Completion { prefix_start, items } => LspEventOutcome::Completion {
                prefix_start: *prefix_start,
                items: items@,
            },
            LspEventOutcome::CompletionResolved { uri, item_index, item } => LspEventOutcome::CompletionResolved {
                uri: uri@,
                item_index: *item_index,
                item: *item,
            },
        }
    }
}

/// Whether `b` is the action `a`, known to come from a client.
pub open spec fn action_from(a: CodeAction, source: Seq<char>, b: CodeAction) -> bool {
    b.title == a.title && b.edit == a.edit && b.raw == a.raw && b.source@ == source
}

/// Whether `b` is the item `a`, known to come from a client.
pub open spec fn item_from(a: CompletionItem, source: Seq<char>, b: CompletionItem) -> bool {
    b == (CompletionItem { source: b.source, ..a }) && b.source@ == source
}

/// Whether some document has an edit.
pub open spec fn some_edit(changes: Seq<(String, Vec<TextEdit>)>) -> bool {
    exists|i: int| 0 <= i < changes.len() && (#[trigger] changes[i]).1@.len() > 0
}

/// Whether an edit changes anything.
pub open spec fn edits_any(e: Option<WorkspaceEdit>) -> bool {
    e is Some && some_edit(e->0.changes@)
}

/// The edit of a rename, after one more answer: the first that changes
/// anything, else the first that there is.
pub open spec fn edit_kept(edit: Option<WorkspaceEdit>, more: Option<WorkspaceEdit>) -> Option<WorkspaceEdit> {
    if edit is None || (!edits_any(edit) && edits_any(more)) {
        more
    } else {
        edit
    }
}

/// Whether `b` is `a` with an answer taken in. An answer of another sort is
/// left aside.
pub open spec fn takes_in(a: AccumView, source: Seq<char>, reply: Reply, kind: LspRequestKind, b: AccumView) -> bool {
    match (a, kind, reply) {
        (GroupAccum::Jump { label, locations }, LspRequestKind::Jump, Reply::Locations(l)) => b == (AccumView::Jump {
            label,
            locations: locations + l@,
        }),
        (GroupAccum::References(locations), LspRequestKind::References, Reply::Locations(l)) => b
            == AccumView::References(locations + l@),
        (GroupAccum::Rename { new_name, edit }, LspRequestKind::Rename, Reply::Edit(e)) => b == (AccumView::Rename {
            new_name,
            edit: edit_kept(edit, e),
        }),
        (GroupAccum::CodeAction(actions), LspRequestKind::CodeAction, Reply::Actions(more)) => {
            &&& b matches GroupAccum::CodeAction(all)
            &&& all.len() == actions.len() + more@.len()
            &&& forall|i: int| 0 <= i < actions.len() ==> (#[trigger] all[i]) == actions[i]
            &&& forall|i: int|
                0 <= i < more@.len() ==> action_from(more@[i], source, #[trigger] all[actions.len() + i])
        },
        (GroupAccum::Hover(parts), LspRequestKind::Hover, Reply::Hover(h)) => match h {
            Some(h) => b == AccumView::Hover(parts.push(h.contents@)),
            None => b == a,
        },
        (GroupAccum::Completion { prefix_start, items }, LspRequestKind::Completion, Reply::Items(more)) => {
            &&& b matches GroupAccum::Completion { prefix_start: p, items: all }
            &&& p == prefix_start
            &&& all.len() == items.len() + more@.len()
            &&& forall|i: int| 0 <= i < items.len() ==> (#[trigger] all[i]) == items[i]
            &&& forall|i: int| 0 <= i < more@.len() ==> item_from(more@[i], source, #[trigger] all[items.len() + i])
        },
        (
            GroupAccum::CompletionResolve { uri, item_index, item },
            LspRequestKind::CompletionResolve,
            Reply::Item(given),
        ) => {
            &&& b matches GroupAccum::CompletionResolve { uri: u, item_index: x, item: got }
            &&& u == uri
            &&& x == item_index
            &&& match (given, got) {
                (Some(g), Some(h)) => item_from(g, source, h),
                (None, None) => true,
                _ => false,
            }
        },
        (GroupAccum::CodeActionResolve { action }, LspRequestKind::CodeActionResolve, Reply::Action(given)) => {
            &&& b matches GroupAccum::CodeActionResolve { action: got }
            &&& match (given, got) {
                (Some(g), Some(h)) => action_from(g, source, h),
                (None, None) => true,
                _ => false,
            }
        },
        _ => b == a,
    }
}

fn extend_locations(mut a: Vec<Location>, mut b: Vec<Location>) -> (r: Vec<Location>)
    ensures
        r@ == a@ + b@,
{
    let ghost x = a@;
    let ghost y = b@;
    a.append(&mut b);
    assert(a@ =~= x + y);
    a
}

fn extend_actions(mut a: Vec<CodeAction>, b: Vec<CodeAction>, source: &str) -> (r: Vec<CodeAction>)
    ensures
        r@.len() == a@.len() + b@.len(),
        forall|i: int| 0 <= i < a@.len() ==> (#[trigger] r@[i]) == a@[i],
        forall|i: int| 0 <= i < b@.len() ==> action_from(b@[i], source@, #[trigger] r@[a@.len() + i]),
{
    let ghost x = a@;
    let ghost y = b@;
    let mut rest = b;
    let mut tail: Vec<CodeAction> = Vec::new();
    while rest.len() > 0
        invariant
            rest@.len() + tail@.len() == y.len(),
            forall|i: int| 0 <= i < rest@.len() ==> rest@[i] == y[i],
            forall|i: int| 0 <= i < tail@.len() ==> action_from(y[y.len() - 1 - i], source@, #[trigger] tail@[i]),
        decreases rest.len(),
    {
        if let Some(c) = rest.pop() {
            tail.push(CodeAction { title: c.title, edit: c.edit, raw: c.raw, source: copy_str(source) });
        }
    }
    let ghost n = y.len() as int;
    let ghost mut done: int = 0;
    while tail.len() > 0
        invariant
            0 <= done <= n == y.len(),
            tail@.len() == n - done,
            forall|i: int| 0 <= i < tail@.len() ==> action_from(y[n - 1 - i], source@, #[trigger] tail@[i]),
            a@.len() == x.len() + done,
            forall|i: int| 0 <= i < x.len() ==> (#[trigger] a@[i]) == x[i],
            forall|i: int| 0 <= i < done ==> action_from(y[i], source@, #[trigger] a@[x.len() + i]),
        decreases tail.len(),
    {
        if let Some(c) = tail.pop() {
            a.push(c);
            proof {
                assert(action_from(y[done], source@, a@[x.len() + done]));
                done = done + 1;
            }
        }
    }
    a
}

fn with_source(c: CompletionItem, source: &str) -> (r: CompletionItem)
    ensures
        item_from(c, source@, r),
{
    let mut c = c;
    c.source = copy_str(source);
    c
}

fn extend_items(mut a: Vec<CompletionItem>, b: Vec<CompletionItem>, source: &str) -> (r: Vec<CompletionItem>)
    ensures
        r@.len() == a@.len() + b@.len(),
        forall|i: int| 0 <= i < a@.len() ==> (#[trigger] r@[i]) == a@[i],
        forall|i: int| 0 <= i < b@.len() ==> item_from(b@[i], source@, #[trigger] r@[a@.len() + i]),
{
    let ghost x = a@;
    let ghost y = b@;
    let mut rest = b;
    let mut tail: Vec<CompletionItem> = Vec::new();
    while rest.len() > 0
        invariant
            rest@.len() + tail@.len() == y.len(),
            forall|i: int| 0 <= i < rest@.len() ==> rest@[i] == y[i],
            forall|i: int| 0 <= i < tail@.len() ==> item_from(y[y.len() - 1 - i], source@, #[trigger] tail@[i]),
        decreases rest.len(),
    {
        if let Some(c) = rest.pop() {
            tail.push(with_source(c, source));
        }
    }
    let ghost n = y.len() as int;
    let ghost mut done: int = 0;
    while tail.len() > 0
        invariant
            0 <= done <= n == y.len(),
            tail@.len() == n - done,
            forall|i: int| 0 <= i < tail@.len() ==> item_from(y[n - 1 - i], source@, #[trigger] tail@[i]),
            a@.len() == x.len() + done,
            forall|i: int| 0 <= i < x.len() ==> (#[trigger] a@[i]) == x[i],
            forall|i: int| 0 <= i < done ==> item_from(y[i], source@, #[trigger] a@[x.len() + i]),
        decreases tail.len(),
    {
        if let Some(c) = tail.pop() {
            a.push(c);
            proof {
                assert(item_from(y[done], source@, a@[x.len() + done]));
                done = done + 1;
            }
        }
    }
    a
}

/// Whether some document has an edit.
fn has_edit(changes: &Vec<(String, Vec<TextEdit>)>) -> (r: bool)
    ensures
        r == some_edit(changes@),
{
    let mut i: usize = 0;
    while i < changes.len()
        invariant
            i <= changes.len(),
            forall|k: int| 0 <= k < i ==> (#[trigger] changes@[k]).1@.len() == 0,
        decreases changes.len() - i,
    {
        if changes[i].1.len() > 0 {
            assert(changes@[i as int].1@.len() > 0);
            return true;
        }
        i = i + 1;
    }
    false
}

/// Whether an edit changes anything.
fn changes_anything(e: &Option<WorkspaceEdit>) -> (r: bool)
    ensures
        r == edits_any(*e),
{
    match e {
        Some(w) => has_edit(&w.changes),
        None => false,
    }
}

/// Takes the answer of a client in.
pub fn accumulate(accum: GroupAccum, source: &str, reply: Reply, kind: LspRequestKind) -> (r: GroupAccum)
    ensures
        takes_in(accum@, source@, reply, kind, r@),
{
    match (accum, kind, reply) {
        (GroupAccum::Jump { label, locations }, LspRequestKind::Jump, Reply::Locations(l)) => GroupAccum::Jump {
            label,
            locations: extend_locations(locations, l),
        },
        (GroupAccum::References(locations), LspRequestKind::References, Reply::Locations(l)) => GroupAccum::References(
            extend_locations(locations, l),
        ),
        (GroupAccum::Rename { new_name, edit }, LspRequestKind::Rename, Reply::Edit(e)) => {
            if edit.is_none() || (!changes_anything(&edit) && changes_anything(&e)) {
                GroupAccum::Rename { new_name, edit: e }
            } else {
                GroupAccum::Rename { new_name, edit }
            }
        },
        (GroupAccum::CodeAction(actions), LspRequestKind::CodeAction, Reply::Actions(more)) => GroupAccum::CodeAction(
            extend_actions(actions, more, source),
        ),
        (GroupAccum::Hover(parts), LspRequestKind::Hover, Reply::Hover(h)) => match h {
            Some(h) => {
                let ghost before = text_of(parts@);
                let mut parts = parts;
                parts.push(h.contents);
                proof {
                    assert(text_of(parts@) =~= before.push(h.contents@));
                }
                GroupAccum::Hover(parts)
            },
            None => GroupAccum::Hover(parts),
        },
        (GroupAccum::Completion { prefix_start, items }, LspRequestKind::Completion, Reply::Items(more)) => {
            GroupAccum::Completion { prefix_start, items: extend_items(items, more, source) }
        },
        (
            GroupAccum::CompletionResolve { uri, item_index, item },
            LspRequestKind::CompletionResolve,
            Reply::Item(given),
        ) => {
            let got = match given {
                Some(g) => Some(with_source(g, source)),
                None => None,
            };
            GroupAccum::CompletionResolve { uri, item_index, item: got }
        },
        (GroupAccum::CodeActionResolve { action }, LspRequestKind::CodeActionResolve, Reply::Action(given)) => {
            let got = match given {
                Some(c) => Some(
                    CodeAction { title: c.title, edit: c.edit, raw: c.raw, source: copy_str(source) },
                ),
                None => None,
            };
            GroupAccum::CodeActionResolve { action: got }
        },
        (other, _, _) => other,
    }
}

/// The parts of a text with a rule between them.
pub open spec fn with_rules(parts: Seq<Seq<char>>, k: int) -> Seq<char>
    decreases k,
{
    if k <= 0 {
        Seq::empty()
    } else if k == 1 {
        parts[0]
    } else {
        with_rules(parts, k - 1) + "\n\n---\n\n"@ + parts[k - 1]
    }
}

fn join_with_rules(parts: &Vec<String>) -> (r: String)
    ensures
        r@ == with_rules(text_of(parts@), parts@.len() as int),
{
    let ghost all = text_of(parts@);
    let mut out = String::new();
    proof {
        reveal_strlit("");
        assert(out@ =~= with_rules(all, 0));
    }
    let mut i: usize = 0;
    while i < parts.len()
        invariant
            i <= parts.len(),
            all == text_of(parts@),
            out@ == with_rules(all, i as int),
        decreases parts.len() - i,
    {
        assert(all[i as int] == parts@[i as int]@);
        if i > 0 {
            push_str(&mut out, "\n\n---\n\n");
        }
        push_str(&mut out, parts[i].as_str());
        proof {
            if i == 0 {
                assert(out@ =~= all[0]);
            }
        }
        i = i + 1;
    }
    out
}

/// Whether two items offer the same: by label, kind and what they put in.
pub open spec fn same_offer(a: CompletionItem, b: CompletionItem) -> bool {
    a.label@ == b.label@ && a.kind == b.kind && a.inserted() == b.inserted()
}

pub open spec fn offered(s: Seq<CompletionItem>, x: CompletionItem) -> bool {
    exists|i: int| 0 <= i < s.len() && same_offer(#[trigger] s[i], x)
}

/// The first `k` items without those that offer what an earlier one does.
pub open spec fn distinct_offers(items: Seq<CompletionItem>, k: int) -> Seq<CompletionItem>
    decreases k,
{
    if k <= 0 {
        Seq::empty()
    } else {
        let s = distinct_offers(items, k - 1);
        if offered(s, items[k - 1]) {
            s
        } else {
            s.push(items[k - 1])
        }
    }
}

fn offers(a: &CompletionItem, b: &CompletionItem) -> (r: bool)
    ensures
        r == same_offer(*a, *b),
{
    a.kind == b.kind && same_str(a.label.as_str(), b.label.as_str()) && same_str(
        a.insertion().as_str(),
        b.insertion().as_str(),
    )
}

/// Drops items that offer what an earlier one does.
pub fn dedup_completion(items: Vec<CompletionItem>) -> (r: Vec<CompletionItem>)
    ensures
        r@ == distinct_offers(items@, items@.len() as int),
{
    let ghost all = items@;
    let mut rest = items;
    let mut stack: Vec<CompletionItem> = Vec::new();
    while rest.len() > 0
        invariant
            rest@.len() + stack@.len() == all.len(),
            forall|i: int| 0 <= i < rest@.len() ==> rest@[i] == all[i],
            forall|i: int| 0 <= i < stack@.len() ==> (#[trigger] stack@[i]) == all[all.len() - 1 - i],
        decreases rest.len(),
    {
        if let Some(c) = rest.pop() {
            stack.push(c);
        }
    }
    let mut out: Vec<CompletionItem> = Vec::new();
    let ghost mut done: int = 0;
    while stack.len() > 0
        invariant
            0 <= done <= all.len(),
            stack@.len() == all.len() - done,
            forall|i: int| 0 <= i < stack@.len() ==> (#[trigger] stack@[i]) == all[all.len() - 1 - i],
            out@ == distinct_offers(all, done),
        decreases stack.len(),
    {
        if let Some(c) = stack.pop() {
            let mut seen = false;
            let mut j: usize = 0;
            while j < out.len()
                invariant
                    j <= out.len(),
                    seen == exists|i: int| 0 <= i < j && same_offer(#[trigger] out@[i], c),
                decreases out.len() - j,
            {
                if offers(&out[j], &c) {
                    seen = true;
                }
                j = j + 1;
            }
            proof {
                assert(seen == offered(out@, c));
                done = done + 1;
            }
            if !seen {
                out.push(c);
            }
        }
    }
    out
}

/// No two of the items that are kept offer the same, and what any item offers
/// is kept.
pub proof fn law_distinct_offers(items: Seq<CompletionItem>, k: int)
    requires
        0 <= k <= items.len(),
    ensures
        forall|i: int, j: int|
            0 <= i < j < distinct_offers(items, k).len() ==> !same_offer(
                #[trigger] distinct_offers(items, k)[i],
                #[trigger] distinct_offers(items, k)[j],
            ),
        forall|i: int| 0 <= i < k ==> offered(distinct_offers(items, k), #[trigger] items[i]),
    decreases k,
{
    if k > 0 {
        law_distinct_offers(items, k - 1);
        let s = distinct_offers(items, k - 1);
        let t = distinct_offers(items, k);
        assert forall|i: int| 0 <= i < k implies offered(t, #[trigger] items[i]) by {
            if i < k - 1 {
                assert(offered(s, items[i]));
                let m = choose|m: int| 0 <= m < s.len() && same_offer(#[trigger] s[m], items[i]);
                assert(same_offer(t[m], items[i]));
            } else if !offered(s, items[k - 1]) {
                assert(same_offer(t[t.len() - 1], items[i]));
            }
        }
    }
}

/// The answers of all clients, as the editor is to take them.
pub open spec fn outcome_of(a: AccumView) -> OutcomeView {
    match a {
        GroupAccum::Jump { label, locations } => LspEventOutcome::Jump { label, locations },
        GroupAccum::References(l) => LspEventOutcome::References(l),
        GroupAccum::Rename { new_name, edit } => LspEventOutcome::Rename { new_name, edit },
        GroupAccum::CodeAction(l) => LspEventOutcome::CodeActions(l),
        GroupAccum::Hover(parts) => LspEventOutcome::Hover(
            if parts.len() == 0 {
                None
            } else {
                Some(with_rules(parts, parts.len() as int))
            },
        ),
        GroupAccum::Completion { prefix_start, items } => LspEventOutcome::Completion {
            prefix_start,
            items: distinct_offers(items, items.len() as int),
        },
        GroupAccum::CompletionResolve { uri, item_index, item } => LspEventOutcome::CompletionResolved {
            uri,
            item_index,
            item,
        },
        GroupAccum::CodeActionResolve { action } => LspEventOutcome::CodeActionResolved(action),
    }
}

/// The answers of all clients, as the editor is to take them.
pub fn finalize(accum: GroupAccum) -> (r: LspEventOutcome)
    ensures
        r@ == outcome_of(accum@),
{
    match accum {
        GroupAccum::Jump { label, locations } => LspEventOutcome::Jump { label, locations },
        GroupAccum::References(l) => LspEventOutcome::References(l),
        GroupAccum::Rename { new_name, edit } => LspEventOutcome::Rename { new_name, edit },
        GroupAccum::CodeAction(l) => LspEventOutcome::CodeActions(l),
        GroupAccum::Hover(parts) => {
            assert(text_of(parts@).len() == parts@.len());
            if parts.len() == 0 {
                LspEventOutcome::Hover(None)
            } else {
                LspEventOutcome::Hover(Some(join_with_rules(&parts)))
            }
        },
        GroupAccum::Completion { prefix_start, items } => LspEventOutcome::Completion {
            prefix_start,
            items: dedup_completion(items),
        },
        GroupAccum::CompletionResolve { uri, item_index, item } => LspEventOutcome::CompletionResolved {
            uri,
            item_index,
            item,
        },
        GroupAccum::CodeActionResolve { action } => LspEventOutcome::CodeActionResolved(action),
    }
}

} // verus!
