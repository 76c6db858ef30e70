//! What the bookkeeping of the servers promises: whose answer is awaited, what
//! an answer comes to, what was found and what goes when a server goes.
use vstd::prelude::*;
use crate::editor::Cursor;
use crate::lsp::coordinator::{
    client_at,
    clients_without,
    group_at,
    key_of,
    names_without,
    slices_without,
    triggered,
    wait_at,
    waits_without,
    with_sent,
    Board,
    ClientView,
    Group,
    GroupView,
    LspEvent,
    Slice,
    SliceView,
    Wait,
    WaitView,
};
use crate::lsp::group::{
    distinct_offers,
    outcome_of,
    same_offer,
    takes_in,
    with_rules,
    AccumView,
    GroupAccum,
    LspEventOutcome,
    LspRequestKind,
    OutcomeView,
    Reply,
};
use crate::lsp::requests::{
    by_start,
    edit_count,
    edits_elsewhere,
    edits_here,
    gathered,
    law_by_start,
    running,
    touching,
    Params,
    WorkspaceEditResult,
};
use crate::lsp::tally::distinct;
use crate::lsp::wire::{escape, escaped, params_text, quoted, severity_number};
use crate::lsp::{CompletionItem, Diagnostic, Location, Severity, TextEdit, WorkspaceEdit};
use crate::number::decimal;

verus! {

/// The client by a name is found where there is one, and the latest of them.
pub proof fn law_client_by_name(s: Seq<ClientView>, key: Seq<char>, k: int)
    requires
        0 <= k <= s.len(),
    ensures
        match client_at(s, key, k) {
            Some(p) => 0 <= p < k && s[p].key == key && forall|i: int| p < i < k ==> (#[trigger] s[i]).key != key,
            None => forall|i: int| 0 <= i < k ==> (#[trigger] s[i]).key != key,
        },
    decreases k,
{
    if k > 0 && s[k - 1].key != key {
        law_client_by_name(s, key, k - 1);
    }
}

/// A server runs if there is a client by its name.
pub proof fn law_runs(b: Board, key: Seq<char>)
    ensures
        b.runs(key) <==> exists|i: int| 0 <= i < b.clients.len() && (#[trigger] b.clients[i]).key == key,
{
    law_client_by_name(b.clients, key, b.clients.len() as int);
}

/// The request by a client and a number is found where there is one.
pub proof fn law_request_by_number(s: Seq<WaitView>, client: Seq<char>, id: u64, k: int)
    requires
        0 <= k <= s.len(),
    ensures
        match wait_at(s, client, id, k) {
            Some(p) => 0 <= p < k && s[p].client == client && s[p].id == id && forall|i: int|
                p < i < k ==> !((#[trigger] s[i]).client == client && s[i].id == id),
            None => forall|i: int| 0 <= i < k ==> !((#[trigger] s[i]).client == client && s[i].id == id),
        },
    decreases k,
{
    if k > 0 && !(s[k - 1].client == client && s[k - 1].id == id) {
        law_request_by_number(s, client, id, k - 1);
    }
}

/// The group by a number is found where there is one.
pub proof fn law_group_by_number(s: Seq<GroupView>, id: u64, k: int)
    requires
        0 <= k <= s.len(),
    ensures
        match group_at(s, id, k) {
            Some(p) => 0 <= p < k && s[p].id == id && forall|i: int| p < i < k ==> (#[trigger] s[i]).id != id,
            None => forall|i: int| 0 <= i < k ==> (#[trigger] s[i]).id != id,
        },
    decreases k,
{
    if k > 0 && s[k - 1].id != id {
        law_group_by_number(s, id, k - 1);
    }
}

/// A client goes by its language and its server.
pub proof fn law_client_names(lang: Seq<char>, server: Seq<char>)
    ensures
        key_of(lang, server) == lang + seq![':', ':'] + server,
{
    reveal_strlit("::");
    assert("::"@ =~= seq![':', ':']);
}

/// Of the requests the ones to another client stay.
pub proof fn law_requests_of_the_others(s: Seq<WaitView>, client: Seq<char>, k: int)
    requires
        0 <= k <= s.len(),
    ensures
        forall|i: int|
            0 <= i < k && (#[trigger] s[i]).client != client ==> waits_without(s, client, k).contains(s[i]),
        forall|j: int|
            0 <= j < waits_without(s, client, k).len() ==> (#[trigger] waits_without(s, client, k)[j]).client != client
                && exists|i: int| 0 <= i < k && #[trigger] s[i] == waits_without(s, client, k)[j],
    decreases k,
{
    if k > 0 {
        law_requests_of_the_others(s, client, k - 1);
        let t = waits_without(s, client, k - 1);
        let w = waits_without(s, client, k);
        assert forall|i: int| 0 <= i < k && (#[trigger] s[i]).client != client implies w.contains(s[i]) by {
            if i < k - 1 {
                assert(t.contains(s[i]));
                let j = choose|j: int| 0 <= j < t.len() && t[j] == s[i];
                assert(w[j] == s[i]);
            } else {
                assert(w[w.len() - 1] == s[i]);
            }
        }
        assert forall|j: int| 0 <= j < w.len() implies (#[trigger] w[j]).client != client && exists|i: int|
            0 <= i < k && #[trigger] s[i] == w[j] by {
            if j < t.len() {
                assert(w[j] == t[j]);
                let i = choose|i: int| 0 <= i < k - 1 && #[trigger] s[i] == t[j];
                assert(s[i] == w[j]);
            } else {
                assert(s[k - 1] == w[j]);
            }
        }
    }
}

proof fn lemma_slices(s: Seq<SliceView>, uri: Option<Seq<char>>, client: Seq<char>, k: int)
    requires
        0 <= k <= s.len(),
    ensures
        forall|x: SliceView|
            #![trigger slices_without(s, uri, client, k).contains(x)]
            slices_without(s, uri, client, k).contains(x) <==> !(x.client == client && (uri matches Some(u)
                ==> x.uri == u)) && exists|i: int| 0 <= i < k && #[trigger] s[i] == x,
    decreases k,
{
    if k > 0 {
        lemma_slices(s, uri, client, k - 1);
        let t = slices_without(s, uri, client, k - 1);
        let w = slices_without(s, uri, client, k);
        assert forall|x: SliceView| #![trigger w.contains(x)] w.contains(x) <==> !(x.client == client && (uri matches Some(
            u,
        ) ==> x.uri == u)) && exists|i: int| 0 <= i < k && #[trigger] s[i] == x by {
            if w.contains(x) {
                let j = choose|j: int| 0 <= j < w.len() && w[j] == x;
                if j < t.len() {
                    assert(t[j] == x);
                    assert(t.contains(x));
                    let i = choose|i: int| 0 <= i < k - 1 && #[trigger] s[i] == x;
                    assert(s[i] == x);
                } else {
                    assert(s[k - 1] == x);
                }
            }
            if !(x.client == client && (uri matches Some(u) ==> x.uri == u)) && exists|i: int|
                0 <= i < k && #[trigger] s[i] == x {
                let i = choose|i: int| 0 <= i < k && #[trigger] s[i] == x;
                if i < k - 1 {
                    assert(s[i] == x);
                    assert(t.contains(x));
                    let j = choose|j: int| 0 <= j < t.len() && t[j] == x;
                    assert(w[j] == x);
                } else {
                    assert(w[w.len() - 1] == x);
                }
            }
        }
    } else {
        assert(slices_without(s, uri, client, k) =~= Seq::empty());
    }
}

/// What a client finds in a document takes the place of what it found there
/// before, and of nothing else.
pub proof fn law_publishing_replaces(b: Board, client: Seq<char>, uri: Seq<char>, items: Seq<Diagnostic>, x: SliceView)
    ensures
        b.publish(client, uri, items).found.contains(x) <==> if x.client == client && x.uri == uri {
            items.len() > 0 && x.items == items
        } else {
            b.found.contains(x)
        },
        b.publish(client, uri, items) == (Board { found: b.publish(client, uri, items).found, ..b }),
{
    let n = b.found.len() as int;
    lemma_slices(b.found, Some(uri), client, n);
    let s = slices_without(b.found, Some(uri), client, n);
    let new = Slice { uri, client, items };
    assert(s.push(new).contains(x) <==> s.contains(x) || x == new) by {
        if s.contains(x) {
            let i = choose|i: int| 0 <= i < s.len() && s[i] == x;
            assert(s.push(new)[i] == x);
        }
        if x == new {
            assert(s.push(new)[s.len() as int] == x);
        }
        if s.push(new).contains(x) {
            let i = choose|i: int| 0 <= i < s.push(new).len() && s.push(new)[i] == x;
            if i < s.len() {
                assert(s[i] == x);
            }
        }
    }
    assert(b.found.contains(x) <==> exists|i: int| 0 <= i < n && #[trigger] b.found[i] == x);
}

proof fn lemma_clients(s: Seq<ClientView>, key: Seq<char>, k: int)
    requires
        0 <= k <= s.len(),
    ensures
        forall|j: int| 0 <= j < clients_without(s, key, k).len() ==> (#[trigger] clients_without(s, key, k)[j]).key
            != key,
        forall|i: int| 0 <= i < k && (#[trigger] s[i]).key != key ==> clients_without(s, key, k).contains(s[i]),
    decreases k,
{
    if k > 0 {
        lemma_clients(s, key, k - 1);
        let t = clients_without(s, key, k - 1);
        let w = clients_without(s, key, k);
        assert forall|i: int| 0 <= i < k && (#[trigger] s[i]).key != key implies w.contains(s[i]) by {
            if i < k - 1 {
                assert(t.contains(s[i]));
                let j = choose|j: int| 0 <= j < t.len() && t[j] == s[i];
                assert(w[j] == s[i]);
            } else {
                assert(w[w.len() - 1] == s[i]);
            }
        }
    }
}

proof fn lemma_names(s: Seq<Seq<char>>, key: Seq<char>, k: int)
    requires
        0 <= k <= s.len(),
    ensures
        forall|j: int| 0 <= j < names_without(s, key, k).len() ==> (#[trigger] names_without(s, key, k)[j]) != key,
        forall|i: int| 0 <= i < k && (#[trigger] s[i]) != key ==> names_without(s, key, k).contains(s[i]),
    decreases k,
{
    if k > 0 {
        lemma_names(s, key, k - 1);
        let t = names_without(s, key, k - 1);
        let w = names_without(s, key, k);
        assert forall|i: int| 0 <= i < k && (#[trigger] s[i]) != key implies w.contains(s[i]) by {
            if i < k - 1 {
                assert(t.contains(s[i]));
                let j = choose|j: int| 0 <= j < t.len() && t[j] == s[i];
                assert(w[j] == s[i]);
            } else {
                assert(w[w.len() - 1] == s[i]);
            }
        }
    }
}

/// With a client go its requests, what it found, and its place among the clients
/// and those of the open document. The other clients' stay.
pub proof fn law_a_client_goes(b: Board, key: Seq<char>)
    ensures
        ({
            let e = b.without_client(key);
            &&& !e.runs(key)
            &&& forall|i: int|
                0 <= i < b.clients.len() && (#[trigger] b.clients[i]).key != key ==> e.clients.contains(b.clients[i])
            &&& forall|j: int| 0 <= j < e.pending.len() ==> (#[trigger] e.pending[j]).client != key
            &&& forall|i: int|
                0 <= i < b.pending.len() && (#[trigger] b.pending[i]).client != key ==> e.pending.contains(
                    b.pending[i],
                )
            &&& forall|x: SliceView| #[trigger] e.found.contains(x) <==> b.found.contains(x) && x.client != key
            &&& !e.current.contains(key)
            &&& forall|i: int|
                0 <= i < b.current.len() && (#[trigger] b.current[i]) != key ==> e.current.contains(b.current[i])
            &&& e.uri == b.uri
            &&& e.language == b.language
        }),
{
    let e = b.without_client(key);
    lemma_clients(b.clients, key, b.clients.len() as int);
    law_runs(e, key);
    law_requests_of_the_others(b.pending, key, b.pending.len() as int);
    lemma_slices(b.found, None, key, b.found.len() as int);
    lemma_names(b.current, key, b.current.len() as int);
    assert forall|x: SliceView| #[trigger] e.found.contains(x) <==> b.found.contains(x) && x.client != key by {
        assert(b.found.contains(x) <==> exists|i: int| 0 <= i < b.found.len() && #[trigger] b.found[i] == x);
    }
}

/// What is shown of the open document is what all clients found in it, in the
/// order of where it starts.
pub proof fn law_findings_of_the_document(b: Board, uri: Seq<char>, d: Diagnostic)
    requires
        b.uri == Some(uri),
    ensures
        ({
            let known = exists|i: int|
                0 <= i < b.found.len() && (#[trigger] b.found[i]).uri == uri && b.found[i].items.contains(d);
            &&& known <==> b.diagnostics() is Some && (b.diagnostics()->0).contains(d)
            &&& b.diagnostics() matches Some(all) ==> all.len() > 0 && forall|i: int, j: int|
                0 <= i < j < all.len() ==> {
                    let (p, q) = ((#[trigger] all[i]).range.start, (#[trigger] all[j]).range.start);
                    p.line < q.line || (p.line == q.line && p.character <= q.character)
                }
        }),
{
    let n = b.found.len() as int;
    let all = gathered(b.found, uri, n);
    lemma_gathered(b.found, uri, n, d);
    law_by_start(all, all.len() as int);
    let o = by_start(all, all.len() as int);
    lemma_put_all(all, all.len() as int, d);
    if all.len() > 0 {
        lemma_by_start_len(all, all.len() as int);
    }
    assert(all.contains(d) <==> exists|i: int| 0 <= i < all.len() && #[trigger] all[i] == d);
}

proof fn lemma_by_start_len(s: Seq<Diagnostic>, k: int)
    requires
        0 <= k <= s.len(),
    ensures
        by_start(s, k).len() == k,
    decreases k,
{
    if k > 0 {
        lemma_by_start_len(s, k - 1);
        lemma_put_len(by_start(s, k - 1), s[k - 1]);
    }
}

proof fn lemma_put_len(s: Seq<Diagnostic>, x: Diagnostic)
    ensures
        crate::lsp::requests::put(s, x).len() == s.len() + 1,
        forall|d: Diagnostic|
            #[trigger] crate::lsp::requests::put(s, x).contains(d) <==> s.contains(d) || d == x,
    decreases s.len(),
{
    let p = crate::lsp::requests::put(s, x);
    if s.len() > 0 && crate::lsp::edits::starts_before(x.range.start, s.last().range.start) {
        let t = s.drop_last();
        lemma_put_len(t, x);
        let q = crate::lsp::requests::put(t, x);
        assert(p == q.push(s.last()));
        assert forall|d: Diagnostic| #[trigger] p.contains(d) <==> s.contains(d) || d == x by {
            if p.contains(d) {
                let i = choose|i: int| 0 <= i < p.len() && p[i] == d;
                if i < q.len() {
                    assert(q[i] == d);
                    assert(q.contains(d));
                    if d != x {
                        let j = choose|j: int| 0 <= j < t.len() && t[j] == d;
                        assert(s[j] == d);
                    }
                } else {
                    assert(s[s.len() - 1] == d);
                }
            }
            if s.contains(d) {
                let i = choose|i: int| 0 <= i < s.len() && s[i] == d;
                if i < t.len() {
                    assert(t[i] == d);
                    assert(q.contains(d));
                    let j = choose|j: int| 0 <= j < q.len() && q[j] == d;
                    assert(p[j] == d);
                } else {
                    assert(p[p.len() - 1] == d);
                }
            }
            if d == x {
                assert(q.contains(x));
                let j = choose|j: int| 0 <= j < q.len() && q[j] == x;
                assert(p[j] == x);
            }
        }
    } else {
        assert(p == s.push(x));
        assert forall|d: Diagnostic| #[trigger] p.contains(d) <==> s.contains(d) || d == x by {
            if p.contains(d) {
                let i = choose|i: int| 0 <= i < p.len() && p[i] == d;
                if i < s.len() {
                    assert(s[i] == d);
                }
            }
            if s.contains(d) {
                let i = choose|i: int| 0 <= i < s.len() && s[i] == d;
                assert(p[i] == d);
            }
            if d == x {
                assert(p[s.len() as int] == d);
            }
        }
    }
}

proof fn lemma_put_all(s: Seq<Diagnostic>, k: int, d: Diagnostic)
    requires
        0 <= k <= s.len(),
    ensures
        by_start(s, k).contains(d) <==> exists|i: int| 0 <= i < k && #[trigger] s[i] == d,
    decreases k,
{
    if k > 0 {
        lemma_put_all(s, k - 1, d);
        lemma_put_len(by_start(s, k - 1), s[k - 1]);
        if exists|i: int| 0 <= i < k && #[trigger] s[i] == d {
            let i = choose|i: int| 0 <= i < k && #[trigger] s[i] == d;
            if i < k - 1 {
                assert(by_start(s, k - 1).contains(d));
            }
        }
        if by_start(s, k - 1).contains(d) {
            let i = choose|i: int| 0 <= i < k - 1 && #[trigger] s[i] == d;
            assert(s[i] == d);
        }
    } else {
        assert(by_start(s, k) =~= Seq::empty());
    }
}

proof fn lemma_gathered(s: Seq<SliceView>, uri: Seq<char>, k: int, d: Diagnostic)
    requires
        0 <= k <= s.len(),
    ensures
        gathered(s, uri, k).contains(d) <==> exists|i: int|
            0 <= i < k && (#[trigger] s[i]).uri == uri && s[i].items.contains(d),
    decreases k,
{
    if k > 0 {
        lemma_gathered(s, uri, k - 1, d);
        let t = gathered(s, uri, k - 1);
        let w = gathered(s, uri, k);
        if w.contains(d) {
            let j = choose|j: int| 0 <= j < w.len() && w[j] == d;
            if j < t.len() {
                assert(t[j] == d);
                assert(t.contains(d));
                let i = choose|i: int| 0 <= i < k - 1 && (#[trigger] s[i]).uri == uri && s[i].items.contains(d);
                assert(s[i].uri == uri);
            } else {
                assert(s[k - 1].items[j - t.len()] == d);
                assert(s[k - 1].uri == uri);
            }
        }
        if exists|i: int| 0 <= i < k && (#[trigger] s[i]).uri == uri && s[i].items.contains(d) {
            let i = choose|i: int| 0 <= i < k && (#[trigger] s[i]).uri == uri && s[i].items.contains(d);
            if i < k - 1 {
                assert(s[i].uri == uri);
                assert(t.contains(d));
                let j = choose|j: int| 0 <= j < t.len() && t[j] == d;
                assert(w[j] == d);
            } else {
                let items = s[k - 1].items;
                let j = choose|j: int| 0 <= j < items.len() && items[j] == d;
                assert(w[t.len() + j] == d);
            }
        }
    } else {
        assert(gathered(s, uri, k) =~= Seq::empty());
    }
}

/// The findings at a row are those whose lines it is among.
pub proof fn law_findings_at_a_row(s: Seq<Diagnostic>, row: usize, k: int, d: Diagnostic)
    requires
        0 <= k <= s.len(),
        row <= u32::MAX,
    ensures
        touching(s, row, k).contains(d) <==> d.range.start.line <= row <= d.range.end.line && exists|i: int|
            0 <= i < k && #[trigger] s[i] == d,
    decreases k,
{
    if k > 0 {
        law_findings_at_a_row(s, row, k - 1, d);
        let t = touching(s, row, k - 1);
        let w = touching(s, row, k);
        if w.contains(d) {
            let j = choose|j: int| 0 <= j < w.len() && w[j] == d;
            if j < t.len() {
                assert(t[j] == d);
                assert(t.contains(d));
                let i = choose|i: int| 0 <= i < k - 1 && #[trigger] s[i] == d;
                assert(s[i] == d);
            } else {
                assert(s[k - 1] == d);
            }
        }
        if d.range.start.line <= row <= d.range.end.line && exists|i: int| 0 <= i < k && #[trigger] s[i] == d {
            let i = choose|i: int| 0 <= i < k && #[trigger] s[i] == d;
            if i < k - 1 {
                assert(s[i] == d);
                assert(t.contains(d));
                let j = choose|j: int| 0 <= j < t.len() && t[j] == d;
                assert(w[j] == d);
            } else {
                assert(w[w.len() - 1] == d);
            }
        }
    } else {
        assert(touching(s, row, k) =~= Seq::empty());
    }
}

/// A request goes to those servers of the open document that run.
pub proof fn law_requests_go_to_running_servers(b: Board, key: Seq<char>)
    ensures
        b.targets().contains(key) <==> b.current.contains(key) && b.runs(key),
{
    lemma_running(b, b.current.len() as int, key);
    assert(b.current.contains(key) <==> exists|i: int| 0 <= i < b.current.len() && #[trigger] b.current[i] == key);
}

proof fn lemma_running(b: Board, k: int, key: Seq<char>)
    requires
        0 <= k <= b.current.len(),
    ensures
        running(b, k).contains(key) <==> b.runs(key) && exists|i: int| 0 <= i < k && #[trigger] b.current[i] == key,
    decreases k,
{
    if k > 0 {
        lemma_running(b, k - 1, key);
        let t = running(b, k - 1);
        let w = running(b, k);
        if w.contains(key) {
            let j = choose|j: int| 0 <= j < w.len() && w[j] == key;
            if j < t.len() {
                assert(t[j] == key);
                assert(t.contains(key));
                let i = choose|i: int| 0 <= i < k - 1 && #[trigger] b.current[i] == key;
                assert(b.current[i] == key);
            } else {
                assert(b.current[k - 1] == key);
            }
        }
        if b.runs(key) && exists|i: int| 0 <= i < k && #[trigger] b.current[i] == key {
            let i = choose|i: int| 0 <= i < k && #[trigger] b.current[i] == key;
            if i < k - 1 {
                assert(b.current[i] == key);
                assert(t.contains(key));
                let j = choose|j: int| 0 <= j < t.len() && t[j] == key;
                assert(w[j] == key);
            } else {
                assert(w[w.len() - 1] == key);
            }
        }
    } else {
        assert(running(b, k) =~= Seq::empty());
    }
}

/// What came from a server goes back to it while it runs, and else to the first
/// server of the open document.
pub proof fn law_items_go_back(b: Board, source: Seq<char>)
    ensures
        b.runs(source) ==> b.target_for(source) == Some(source),
        !b.runs(source) && b.current.len() > 0 && b.runs(b.current[0]) ==> b.target_for(source) == Some(b.current[0]),
        !b.runs(source) && (b.current.len() == 0 || !b.runs(b.current[0])) ==> b.target_for(source) is None,
{
}

/// An answer that nobody waits for changes nothing and comes to nothing.
pub proof fn law_stray_answer(b: Board, client: Seq<char>, id: u64, reply: Option<Reply>, after: Board, o: OutcomeView)
    requires
        b.answered(client, id, reply, after, o),
        forall|i: int| 0 <= i < b.pending.len() ==> !((#[trigger] b.pending[i]).client == client && b.pending[i].id == id),
    ensures
        after == b,
        o is Nothing,
{
    law_request_by_number(b.pending, client, id, b.pending.len() as int);
}

/// An answer settles its request. While others of its group are awaited nothing
/// comes of it yet; with the last one the group is gone and what all of them
/// answered comes out, a failed answer counting for none.
#[verifier::rlimit(60)]
pub proof fn law_answer_settles_its_request(
    b: Board,
    client: Seq<char>,
    id: u64,
    reply: Option<Reply>,
    after: Board,
    o: OutcomeView,
    p: int,
    q: int,
)
    requires
        b.answered(client, id, reply, after, o),
        0 <= p < b.pending.len(),
        b.pending[p].client == client && b.pending[p].id == id,
        forall|i: int|
            0 <= i < b.pending.len() && i != p ==> !((#[trigger] b.pending[i]).client == client && b.pending[i].id
                == id),
        distinct(b.groups),
        0 <= q < b.groups.len(),
        b.groups[q].id == b.pending[p].group,
    ensures
        after.pending == b.pending.remove(p),
        b.groups[q].remaining > 1 ==> {
            &&& o is Nothing
            &&& after.groups.len() == b.groups.len()
            &&& after.groups.last().id == b.groups[q].id
            &&& after.groups.last().remaining == b.groups[q].remaining - 1
            &&& after.groups.drop_last() == b.groups.remove(q)
            &&& reply is None ==> after.groups.last().accum == b.groups[q].accum
            &&& reply matches Some(r) ==> takes_in(
                b.groups[q].accum,
                client,
                r,
                b.pending[p].kind,
                after.groups.last().accum,
            )
        },
        b.groups[q].remaining <= 1 ==> {
            &&& after.groups == b.groups.remove(q)
            &&& reply is None ==> o == outcome_of(b.groups[q].accum)
            &&& reply matches Some(r) ==> exists|a: AccumView|
                #![trigger outcome_of(a)]
                takes_in(b.groups[q].accum, client, r, b.pending[p].kind, a) && o == outcome_of(a)
        },
        after.found == b.found,
        after.clients == b.clients,
{
    law_request_by_number(b.pending, client, id, b.pending.len() as int);
    law_group_by_number(b.groups, b.pending[p].group, b.groups.len() as int);
    assert(wait_at(b.pending, client, id, b.pending.len() as int) == Some(p));
    assert(group_at(b.groups, b.pending[p].group, b.groups.len() as int) == Some(q));
    let accum = choose|accum: AccumView|
        #![trigger outcome_of(accum)]
        {
            let g = b.groups[q];
            let c = Board { pending: b.pending.remove(p), ..b };
            &&& match reply {
                Some(r) => takes_in(g.accum, client, r, b.pending[p].kind, accum),
                None => accum == g.accum,
            }
            &&& if g.remaining <= 1 {
                after == (Board { groups: b.groups.remove(q), ..c }) && o == outcome_of(accum)
            } else {
                after == (Board {
                    groups: b.groups.remove(q).push(
                        Group { id: g.id, remaining: (g.remaining - 1) as usize, accum },
                    ),
                    ..c
                }) && o == OutcomeView::Nothing
            }
        };
    assert(outcome_of(accum) == outcome_of(accum));
    if b.groups[q].remaining > 1 {
        assert(after.groups.drop_last() =~= b.groups.remove(q));
    }
}

/// A request that is sent to some servers waits for each of them, in a group of
/// its own that counts them. One that is sent to none waits for none.
pub proof fn law_a_request_is_awaited(b: Board, sent: Seq<(Seq<char>, u64)>, kind: LspRequestKind, accum: AccumView)
    requires
        b.fresh(sent),
        sent.len() <= usize::MAX,
    ensures
        ({
            let e = b.asked(sent, kind, accum);
            &&& sent.len() == 0 ==> e.pending == b.pending && e.groups == b.groups
            &&& sent.len() > 0 ==> {
                &&& e.pending.len() == b.pending.len() + sent.len()
                &&& forall|i: int| 0 <= i < b.pending.len() ==> (#[trigger] e.pending[i]) == b.pending[i]
                &&& forall|i: int|
                    0 <= i < sent.len() ==> (#[trigger] e.pending[b.pending.len() + i]) == (Wait {
                        client: sent[i].0,
                        id: sent[i].1,
                        group: b.next,
                        kind,
                    })
                &&& e.groups == b.groups.push(Group { id: b.next, remaining: sent.len() as usize, accum })
            }
            &&& e.next != b.next
        }),
{
    assert(b.next.wrapping_add(1) != b.next);
    lemma_sent(b, sent, kind, sent.len() as int);
}

proof fn lemma_sent(b: Board, sent: Seq<(Seq<char>, u64)>, kind: LspRequestKind, k: int)
    requires
        b.fresh(sent),
        0 <= k <= sent.len(),
    ensures
        ({
            let w = with_sent(b.pending, sent, b.next, kind, k);
            &&& w.len() == b.pending.len() + k
            &&& forall|i: int| 0 <= i < b.pending.len() ==> (#[trigger] w[i]) == b.pending[i]
            &&& forall|i: int|
                b.pending.len() <= i < b.pending.len() + k ==> (#[trigger] w[i]) == (Wait {
                    client: sent[i - b.pending.len()].0,
                    id: sent[i - b.pending.len()].1,
                    group: b.next,
                    kind,
                })
        }),
    decreases k,
{
    if k > 0 {
        lemma_sent(b, sent, kind, k - 1);
        let w = with_sent(b.pending, sent, b.next, kind, k - 1);
        let (c, id) = sent[k - 1];
        law_request_by_number(w, c, id, w.len() as int);
        law_request_by_number(b.pending, c, id, b.pending.len() as int);
        if let Some(p) = wait_at(w, c, id, w.len() as int) {
            if p < b.pending.len() {
                assert(w[p] == b.pending[p]);
                assert(wait_at(b.pending, sent[k - 1].0, sent[k - 1].1, b.pending.len() as int) is None);
            } else {
                assert(w[p].client == sent[p - b.pending.len()].0);
                assert(sent[p - b.pending.len()] == sent[k - 1]);
            }
        }
    }
}

/// The answers of several servers come to one: places and actions are strung
/// together in the order of the answers, and of a rename the first edit that
/// changes anything counts.
pub proof fn law_answers_add_up(
    label: Seq<char>,
    had: Seq<Location>,
    more: Vec<Location>,
    source: Seq<char>,
    name: Seq<char>,
    first: Option<WorkspaceEdit>,
    second: Option<WorkspaceEdit>,
    b: AccumView,
)
    ensures
        takes_in(
            (GroupAccum::Jump { label, locations: had }),
            source,
            Reply::Locations(more),
            LspRequestKind::Jump,
            b,
        ) <==> b == (AccumView::Jump { label, locations: had + more@ }),
        takes_in(GroupAccum::References(had), source, Reply::Locations(more), LspRequestKind::References, b) <==> b
            == AccumView::References(had + more@),
        takes_in(
            (GroupAccum::Rename { new_name: name, edit: first }),
            source,
            Reply::Edit(second),
            LspRequestKind::Rename,
            b,
        ) ==> ({
            let changes = |e: Option<WorkspaceEdit>|
                e matches Some(w) && exists|i: int| 0 <= i < w.changes@.len() && (#[trigger] w.changes@[i]).1@.len() > 0;
            &&& b matches GroupAccum::Rename { new_name, edit }
            &&& new_name == name
            &&& first is None ==> edit == second
            &&& changes(first) ==> edit == first
            &&& first is Some && !changes(first) && changes(second) ==> edit == second
            &&& first is Some && !changes(second) ==> edit == first
        }),
        takes_in(GroupAccum::References(had), source, Reply::Locations(more), LspRequestKind::Jump, b) <==> b
            == AccumView::References(had),
{
}

/// What the answers come to: hover texts with a rule between them, and places
/// as they are.
pub proof fn law_outcomes(label: Seq<char>, places: Seq<Location>, parts: Seq<Seq<char>>, part: Seq<char>)
    ensures
        outcome_of(GroupAccum::Jump { label, locations: places }) == (OutcomeView::Jump { label, locations: places }),
        outcome_of(GroupAccum::References(places)) == OutcomeView::References(places),
        outcome_of(GroupAccum::Hover(Seq::empty())) == OutcomeView::Hover(None),
        outcome_of(GroupAccum::Hover(seq![part])) == OutcomeView::Hover(Some(part)),
        parts.len() > 0 ==> outcome_of(GroupAccum::Hover(parts.push(part))) == OutcomeView::Hover(
            Some((outcome_of(GroupAccum::Hover(parts))->Hover_0)->0 + "\n\n---\n\n"@ + part),
        ),
{
    if parts.len() > 0 {
        lemma_rules(parts, part, parts.len() as int);
    }
}

/// The completions that come out hold each offer that was made, once.
pub proof fn law_completions_hold_each_offer_once(start: Cursor, items: Seq<CompletionItem>, all: Seq<CompletionItem>)
    requires
        outcome_of(GroupAccum::Completion { prefix_start: start, items }) matches LspEventOutcome::Completion {
            prefix_start,
            items: kept,
        } ==> kept == all,
    ensures
        outcome_of(GroupAccum::Completion { prefix_start: start, items }) == (OutcomeView::Completion {
            prefix_start: start,
            items: all,
        }),
        forall|i: int|
            0 <= i < items.len() ==> exists|j: int|
                0 <= j < all.len() && same_offer(#[trigger] all[j], #[trigger] items[i]),
        forall|i: int, j: int| 0 <= i < j < all.len() ==> !same_offer(#[trigger] all[i], #[trigger] all[j]),
{
    lemma_offers(items, items.len() as int);
    assert(all == distinct_offers(items, items.len() as int));
}

proof fn lemma_rules(parts: Seq<Seq<char>>, part: Seq<char>, k: int)
    requires
        0 <= k <= parts.len(),
    ensures
        with_rules(parts.push(part), k) == with_rules(parts, k),
    decreases k,
{
    if k > 1 {
        lemma_rules(parts, part, k - 1);
    }
}

proof fn lemma_offers(items: Seq<CompletionItem>, k: int)
    requires
        0 <= k <= items.len(),
    ensures
        ({
            let all = distinct_offers(items, k);
            &&& forall|i: int|
                0 <= i < k ==> exists|j: int| 0 <= j < all.len() && same_offer(#[trigger] all[j], #[trigger] items[i])
            &&& forall|i: int, j: int| 0 <= i < j < all.len() ==> !same_offer(#[trigger] all[i], #[trigger] all[j])
        }),
    decreases k,
{
    if k > 0 {
        lemma_offers(items, k - 1);
        let s = distinct_offers(items, k - 1);
        let all = distinct_offers(items, k);
        assert forall|i: int| 0 <= i < k implies exists|j: int|
            0 <= j < all.len() && same_offer(#[trigger] all[j], #[trigger] items[i]) by {
            if i < k - 1 {
                let j = choose|j: int| 0 <= j < s.len() && same_offer(#[trigger] s[j], items[i]);
                assert(all[j] == s[j]);
            } else if crate::lsp::group::offered(s, items[k - 1]) {
                let j = choose|j: int| 0 <= j < s.len() && same_offer(#[trigger] s[j], items[k - 1]);
                assert(all[j] == s[j]);
            } else {
                assert(same_offer(all[s.len() as int], items[k - 1]));
            }
        }
    }
}

/// What a server says: a finding is filed, a message is shown, as an error where
/// it is one, and a server that fails is gone.
pub proof fn law_what_a_server_says(b: Board, ev: LspEvent, after: Board, o: OutcomeView)
    requires
        b.heard(ev, after, o),
    ensures
        match ev {
            LspEvent::Diagnostics { client, uri, items } => after == b.publish(client@, uri@, items@) && o is Nothing,
            LspEvent::Message { level, text } => after == b && (level == 1 ==> o == OutcomeView::ErrorMessage(text@))
                && (level != 1 ==> o == OutcomeView::InfoMessage(text@)),
            LspEvent::Error { client, message } => after == b.without_client(client@) && o is ErrorMessage,
            LspEvent::Response { client, id, reply } => b.answered(client@, id, reply, after, o),
        },
{
}

/// An edit of the workspace is parted into the edits of the open document and
/// those of the others; together they are all there are.
pub proof fn law_workspace_edit_is_parted(e: WorkspaceEdit, uri: Seq<char>, r: WorkspaceEditResult)
    requires
        e.comes_to(Some(uri), r),
        forall|i: int, j: int| 0 <= i < j < e.changes@.len() ==> e.changes@[i].0@ != e.changes@[j].0@,
    ensures
        forall|i: int|
            0 <= i < e.changes@.len() && (#[trigger] e.changes@[i]).0@ == uri ==> r.current_buffer_edits@
                == e.changes@[i].1@,
        forall|i: int|
            0 <= i < e.changes@.len() && (#[trigger] e.changes@[i]).0@ != uri ==> r.other_edits@.contains(
                e.changes@[i],
            ),
        forall|j: int| 0 <= j < r.other_edits@.len() ==> (#[trigger] r.other_edits@[j]).0@ != uri,
        (forall|i: int| 0 <= i < e.changes@.len() ==> (#[trigger] e.changes@[i]).0@ != uri)
            ==> r.current_buffer_edits@.len() == 0 && r.other_edits@ == e.changes@,
        r.files_touched == e.changes@.len(),
{
    lemma_parted(e.changes@, uri, e.changes@.len() as int);
    lemma_elsewhere_all(e.changes@, uri, e.changes@.len() as int);
    assert(e.changes@.take(e.changes@.len() as int) =~= e.changes@);
}

proof fn lemma_parted(s: Seq<(String, Vec<TextEdit>)>, uri: Seq<char>, k: int)
    requires
        0 <= k <= s.len(),
        forall|i: int, j: int| 0 <= i < j < s.len() ==> s[i].0@ != s[j].0@,
    ensures
        forall|i: int| 0 <= i < k && (#[trigger] s[i]).0@ == uri ==> edits_here(s, Some(uri), k) == s[i].1@,
        (forall|i: int| 0 <= i < k ==> (#[trigger] s[i]).0@ != uri) ==> edits_here(s, Some(uri), k).len() == 0,
        forall|i: int|
            0 <= i < k && (#[trigger] s[i]).0@ != uri ==> edits_elsewhere(s, Some(uri), k).contains(s[i]),
        forall|j: int|
            0 <= j < edits_elsewhere(s, Some(uri), k).len() ==> (#[trigger] edits_elsewhere(s, Some(uri), k)[j]).0@
                != uri,
    decreases k,
{
    if k > 0 {
        lemma_parted(s, uri, k - 1);
        let t = edits_elsewhere(s, Some(uri), k - 1);
        let w = edits_elsewhere(s, Some(uri), k);
        assert forall|i: int| 0 <= i < k && (#[trigger] s[i]).0@ != uri implies w.contains(s[i]) by {
            if i < k - 1 {
                assert(t.contains(s[i]));
                let j = choose|j: int| 0 <= j < t.len() && t[j] == s[i];
                assert(w[j] == s[i]);
            } else {
                assert(w[w.len() - 1] == s[i]);
            }
        }
        assert forall|i: int| 0 <= i < k && (#[trigger] s[i]).0@ == uri implies edits_here(s, Some(uri), k)
            == s[i].1@ by {
            if i < k - 1 && s[k - 1].0@ == uri {
                assert(s[i].0@ != s[k - 1].0@);
            }
        }
    }
}

proof fn lemma_elsewhere_all(s: Seq<(String, Vec<TextEdit>)>, uri: Seq<char>, k: int)
    requires
        0 <= k <= s.len(),
    ensures
        (forall|i: int| 0 <= i < k ==> (#[trigger] s[i]).0@ != uri) ==> edits_elsewhere(s, Some(uri), k) == s.take(k),
    decreases k,
{
    if k > 0 && forall|i: int| 0 <= i < k ==> (#[trigger] s[i]).0@ != uri {
        lemma_elsewhere_all(s, uri, k - 1);
        assert(s[k - 1].0@ != uri);
        assert(s.take(k - 1).push(s[k - 1]) =~= s.take(k));
    } else if k == 0 {
        assert(s.take(0) =~= Seq::empty());
    }
}

/// The number of edits is the sum over the documents.
pub proof fn law_number_of_edits(s: Seq<(String, Vec<TextEdit>)>, x: (String, Vec<TextEdit>))
    ensures
        edit_count(Seq::empty(), 0) == 0,
        edit_count(s.push(x), s.len() as int + 1) == edit_count(s, s.len() as int) + x.1@.len(),
{
    lemma_count_take(s, x, s.len() as int);
}

proof fn lemma_count_take(s: Seq<(String, Vec<TextEdit>)>, x: (String, Vec<TextEdit>), k: int)
    requires
        0 <= k <= s.len(),
    ensures
        edit_count(s.push(x), k) == edit_count(s, k),
    decreases k,
{
    if k > 0 {
        lemma_count_take(s, x, k - 1);
    }
}

/// A character asks a server for completions if it is one of those that the
/// server named for that.
pub proof fn law_trigger_characters(clients: Seq<ClientView>, key: Seq<char>, c: char)
    ensures
        triggered(clients, key, c) ==> exists|i: int|
            0 <= i < clients.len() && (#[trigger] clients[i]).key == key && clients[i].triggers.contains(seq![c]),
        (forall|i: int| 0 <= i < clients.len() ==> (#[trigger] clients[i]).key != key) ==> !triggered(clients, key, c),
{
    law_client_by_name(clients, key, clients.len() as int);
}

/// What goes with a request names the document, and the place by its line and
/// character, counted from zero.
pub proof fn law_places_on_the_wire(uri: Seq<char>, line: u64, character: u64, name: Seq<char>)
    ensures
        ({
            let place = "{\"line\":"@ + decimal(line as int) + ",\"character\":"@ + decimal(character as int) + "}"@;
            let start = "{\"textDocument\":{\"uri\":"@ + quoted(uri) + "}"@ + ",\"position\":"@ + place;
            &&& params_text(Params::Position { uri, line, character }) == start + "}"@
            &&& params_text(Params::References { uri, line, character }) == start
                + ",\"context\":{\"includeDeclaration\":true}}"@
            &&& params_text(Params::Rename { uri, line, character, new_name: name }) == start + ",\"newName\":"@
                + quoted(name) + "}"@
            &&& params_text(Params::Completion { uri, line, character, trigger: None }) == start
                + ",\"context\":{\"triggerKind\":1}}"@
            &&& params_text(Params::Raw(name)) == name
        }),
        quoted(name) == seq!['"'] + escaped(name) + seq!['"'],
{
}

/// How a character stands in a string on the wire: quotes, backslashes and
/// control characters behind a backslash, and any other as it is.
pub proof fn law_escapes(c: char, s: Seq<char>)
    ensures
        c == '"' || c == '\\' ==> escape(c) == seq!['\\', c],
        c == '\n' ==> escape(c) == seq!['\\', 'n'],
        c == '\t' ==> escape(c) == seq!['\\', 't'],
        c == '\r' ==> escape(c) == seq!['\\', 'r'],
        (c as u32) >= 0x20 && c != '"' && c != '\\' ==> escape(c) == seq![c],
        escaped(s.push(c)) == escaped(s) + escape(c),
        escaped(Seq::empty()).len() == 0,
{
    assert(s.push(c).drop_last() =~= s);
}

/// How grave a finding is, by the numbers of the protocol.
pub proof fn law_severities()
    ensures
        severity_number(Severity::Error) == 1,
        severity_number(Severity::Warning) == 2,
        severity_number(Severity::Info) == 3,
        severity_number(Severity::Hint) == 4,
{
}

/// A request about a place names the open document and the cursor's row and
/// column.
pub proof fn law_place_of_a_request(b: Board, uri: Seq<char>, c: Cursor)
    requires
        b.uri == Some(uri),
    ensures
        b.open_uri() == uri,
        b.place_params(c) == (Params::<Seq<char>, Seq<Diagnostic>>::Position {
            uri,
            line: c.row as u64,
            character: c.col as u64,
        }),
        b.serves() <==> b.current.len() > 0,
{
}

} // verus!
