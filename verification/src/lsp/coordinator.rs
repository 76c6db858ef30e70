//! Keeping track of language servers: which ones serve the open document,
//! what they were asked, and what they found.
use vstd::prelude::*;
use crate::lsp::group::{
    accumulate, finalize, outcome_of, takes_in, AccumView, GroupAccum, LspEventOutcome, LspRequestKind, OutcomeView, Reply,
};
use crate::lsp::Diagnostic;
use crate::text::{copy_str, opt_str, push_str, same_str, text_of};

verus! {

/// The name of a client: the language and the server.
pub open spec fn key_of(lang: Seq<char>, server: Seq<char>) -> Seq<char> {
    lang + "::"@ + server
}

/// The name of a client.
pub fn client_key(lang: &str, server: &str) -> (r: String)
    ensures
        r@ == key_of(lang@, server@),
{
    let mut r = copy_str(lang);
    push_str(&mut r, "::");
    push_str(&mut r, server);
    r
}

/// A client that runs, with the characters that ask it for completions.
#[derive(Debug)]
pub struct Client<S = String, L = Vec<String>> {
    pub key: S,
    pub triggers: L,
}

/// A request that waits for its answer.
#[derive(Debug)]
pub struct Wait<S = String> {
    pub client: S,
    pub id: u64,
    pub group: u64,
    pub kind: LspRequestKind,
}

/// A request to several clients, and how many of them have not answered.
#[derive(Debug)]
pub struct Group<A = GroupAccum> {
    pub id: u64,
    pub remaining: usize,
    pub accum: A,
}

/// What a client found in a document.
#[derive(Debug)]
pub struct Slice<S = String, D = Vec<Diagnostic>> {
    pub uri: S,
    pub client: S,
    pub items: D,
}

pub type ClientView = Client<Seq<char>, Seq<Seq<char>>>;

pub type WaitView = Wait<Seq<char>>;

pub type GroupView = Group<AccumView>;

pub type SliceView = Slice<Seq<char>, Seq<Diagnostic>>;

impl View for Client {
    type V = ClientView;

    open spec fn view(&self) -> ClientView {
        Client { key: self.key@, triggers: text_of(self.triggers@) }
    }
}

impl View for Wait {
    type V = WaitView;

    open spec fn view(&self) -> WaitView {
        Wait { client: self.client@, id: self.id, group: self.group, kind: self.kind }
    }
}

impl View for Group {
    type V = GroupView;

    open spec fn view(&self) -> GroupView {
        Group { id: self.id, remaining: self.remaining, accum: self.accum@ }
    }
}

impl View for Slice {
    type V = SliceView;

    open spec fn view(&self) -> SliceView {
        Slice { uri: self.uri@, client: self.client@, items: self.items@ }
    }
}

pub open spec fn clients_of(v: Seq<Client>) -> Seq<ClientView> {
    Seq::new(v.len(), |i: int| v[i]@)
}

pub open spec fn waits_of(v: Seq<Wait>) -> Seq<WaitView> {
    Seq::new(v.len(), |i: int| v[i]@)
}

pub open spec fn groups_of(v: Seq<Group>) -> Seq<GroupView> {
    Seq::new(v.len(), |i: int| v[i]@)
}

pub open spec fn slices_of(v: Seq<Slice>) -> Seq<SliceView> {
    Seq::new(v.len(), |i: int| v[i]@)
}

/// The servers, and the state of what they were asked.
#[derive(Debug)]
pub struct LspCoordinator {
    pub clients: Vec<Client>,
    pub diagnostics: Vec<Slice>,
    pub pending: Vec<Wait>,
    pub groups: Vec<Group>,
    pub next_group_id: u64,
    /// The document that is open.
    pub current_uri: Option<String>,
    pub current_language: Option<String>,
    /// The clients of the open document.
    pub current_clients: Vec<String>,
    pub last_synced_version: u64,
    /// The directory that the editor was started in.
    pub startup_cwd: String,
}

/// The content of the servers' state.
#[verifier::ext_equal]
pub struct Board {
    pub clients: Seq<ClientView>,
    pub found: Seq<SliceView>,
    pub pending: Seq<WaitView>,
    pub groups: Seq<GroupView>,
    pub next: u64,
    pub uri: Option<Seq<char>>,
    pub language: Option<Seq<char>>,
    pub current: Seq<Seq<char>>,
    pub synced: u64,
    pub cwd: Seq<char>,
}

impl View for LspCoordinator {
    type V = Board;

    open spec fn view(&self) -> Board {
        Board {
            clients: clients_of(self.clients@),
            found: slices_of(self.diagnostics@),
            pending: waits_of(self.pending@),
            groups: groups_of(self.groups@),
            next: self.next_group_id,
            uri: opt_str(self.current_uri),
            language: opt_str(self.current_language),
            current: text_of(self.current_clients@),
            synced: self.last_synced_version,
            cwd: self.startup_cwd@,
        }
    }
}

/// The place of the last client by a name among the first `k`.
pub open spec fn client_at(s: Seq<ClientView>, key: Seq<char>, k: int) -> Option<int>
    decreases k,
{
    if k <= 0 {
        None
    } else if s[k - 1].key == key {
        Some(k - 1)
    } else {
        client_at(s, key, k - 1)
    }
}

/// The place of the last request by a client and a number among the first
/// `k`.
pub open spec fn wait_at(s: Seq<WaitView>, client: Seq<char>, id: u64, k: int) -> Option<int>
    decreases k,
{
    if k <= 0 {
        None
    } else if s[k - 1].client == client && s[k - 1].id == id {
        Some(k - 1)
    } else {
        wait_at(s, client, id, k - 1)
    }
}

/// The place of the last group by a number among the first `k`.
pub open spec fn group_at(s: Seq<GroupView>, id: u64, k: int) -> Option<int>
    decreases k,
{
    if k <= 0 {
        None
    } else if s[k - 1].id == id {
        Some(k - 1)
    } else {
        group_at(s, id, k - 1)
    }
}

/// The requests with one more. A client's number names one request only.
pub open spec fn with_wait(s: Seq<WaitView>, w: WaitView) -> Seq<WaitView> {
    match wait_at(s, w.client, w.id, s.len() as int) {
        Some(p) => s.remove(p).push(w),
        None => s.push(w),
    }
}

/// The groups with one more. A number names one group only.
pub open spec fn with_group(s: Seq<GroupView>, g: GroupView) -> Seq<GroupView> {
    match group_at(s, g.id, s.len() as int) {
        Some(p) => s.remove(p).push(g),
        None => s.push(g),
    }
}

/// The requests with one more for each of the first `k` that were sent.
pub open spec fn with_sent(
    s: Seq<WaitView>,
    sent: Seq<(Seq<char>, u64)>,
    group: u64,
    kind: LspRequestKind,
    k: int,
) -> Seq<WaitView>
    decreases k,
{
    if k <= 0 {
        s
    } else {
        with_wait(
            with_sent(s, sent, group, kind, k - 1),
            Wait { client: sent[k - 1].0, id: sent[k - 1].1, group, kind },
        )
    }
}

pub open spec fn sent_of(v: Seq<(String, u64)>) -> Seq<(Seq<char>, u64)> {
    Seq::new(v.len(), |i: int| (v[i].0@, v[i].1))
}

/// One client fewer has to answer. The group is gone where none is left.
pub open spec fn one_fewer(s: Seq<GroupView>, id: u64) -> Seq<GroupView> {
    match group_at(s, id, s.len() as int) {
        None => s,
        Some(p) => if s[p].remaining <= 1 {
            s.remove(p)
        } else {
            s.update(p, Group { remaining: (s[p].remaining - 1) as usize, ..s[p] })
        },
    }
}

/// The groups once a client is gone: it answers nothing of the first `k`
/// requests.
pub open spec fn groups_without(groups: Seq<GroupView>, pending: Seq<WaitView>, client: Seq<char>, k: int) -> Seq<
    GroupView,
>
    decreases k,
{
    if k <= 0 {
        groups
    } else {
        let g = groups_without(groups, pending, client, k - 1);
        if pending[k - 1].client == client {
            one_fewer(g, pending[k - 1].group)
        } else {
            g
        }
    }
}

/// The first `k` requests without those to a client.
pub open spec fn waits_without(s: Seq<WaitView>, client: Seq<char>, k: int) -> Seq<WaitView>
    decreases k,
{
    if k <= 0 {
        Seq::empty()
    } else if s[k - 1].client == client {
        waits_without(s, client, k - 1)
    } else {
        waits_without(s, client, k - 1).push(s[k - 1])
    }
}

/// The first `k` clients without those by a name.
pub open spec fn clients_without(s: Seq<ClientView>, key: Seq<char>, k: int) -> Seq<ClientView>
    decreases k,
{
    if k <= 0 {
        Seq::empty()
    } else if s[k - 1].key == key {
        clients_without(s, key, k - 1)
    } else {
        clients_without(s, key, k - 1).push(s[k - 1])
    }
}

/// The first `k` names without a given one.
pub open spec fn names_without(s: Seq<Seq<char>>, key: Seq<char>, k: int) -> Seq<Seq<char>>
    decreases k,
{
    if k <= 0 {
        Seq::empty()
    } else if s[k - 1] == key {
        names_without(s, key, k - 1)
    } else {
        names_without(s, key, k - 1).push(s[k - 1])
    }
}

/// The first `k` findings without those of a client, in one document or in
/// all.
pub open spec fn slices_without(s: Seq<SliceView>, uri: Option<Seq<char>>, client: Seq<char>, k: int) -> Seq<SliceView>
    decreases k,
{
    if k <= 0 {
        Seq::empty()
    } else if s[k - 1].client == client && (uri matches Some(u) ==> s[k - 1].uri == u) {
        slices_without(s, uri, client, k - 1)
    } else {
        slices_without(s, uri, client, k - 1).push(s[k - 1])
    }
}

impl Board {
    /// Whether a server serves the open document.
    pub open spec fn serves(self) -> bool {
        self.uri is Some && self.current.len() > 0
    }

    pub open spec fn runs(self, key: Seq<char>) -> bool {
        client_at(self.clients, key, self.clients.len() as int) is Some
    }

    /// What a client found in a document takes the place of what it found
    /// there before. Nothing found leaves nothing.
    pub open spec fn publish(self, client: Seq<char>, uri: Seq<char>, items: Seq<Diagnostic>) -> Board {
        let s = slices_without(self.found, Some(uri), client, self.found.len() as int);
        Board {
            found: if items.len() == 0 {
                s
            } else {
                s.push(Slice { uri, client, items })
            },
            ..self
        }
    }

    /// A client that is gone: it answers nothing more, and what it found is
    /// forgotten.
    pub open spec fn without_client(self, key: Seq<char>) -> Board {
        Board {
            clients: clients_without(self.clients, key, self.clients.len() as int),
            current: names_without(self.current, key, self.current.len() as int),
            groups: groups_without(self.groups, self.pending, key, self.pending.len() as int),
            pending: waits_without(self.pending, key, self.pending.len() as int),
            found: slices_without(self.found, None, key, self.found.len() as int),
            ..self
        }
    }

    /// A request that was sent to some clients. None sent, none waits.
    pub open spec fn asked(self, sent: Seq<(Seq<char>, u64)>, kind: LspRequestKind, accum: AccumView) -> Board {
        let b = Board { next: self.next.wrapping_add(1), ..self };
        if sent.len() == 0 {
            b
        } else {
            Board {
                pending: with_sent(self.pending, sent, self.next, kind, sent.len() as int),
                groups: with_group(self.groups, Group { id: self.next, remaining: sent.len() as usize, accum }),
                ..b
            }
        }
    }

    /// Whether an answer leads to another state and an outcome. A failed
    /// answer counts as an empty one. The outcome comes with the last answer.
    pub open spec fn answered(
        self,
        client: Seq<char>,
        id: u64,
        reply: Option<Reply>,
        after: Board,
        outcome: OutcomeView,
    ) -> bool {
        match wait_at(self.pending, client, id, self.pending.len() as int) {
            None => after == self && outcome == OutcomeView::Nothing,
            Some(p) => {
                let w = self.pending[p];
                let b = Board { pending: self.pending.remove(p), ..self };
                match group_at(self.groups, w.group, self.groups.len() as int) {
                    None => after == b && outcome == OutcomeView::Nothing,
                    Some(q) => exists|accum: AccumView|
                        #![trigger outcome_of(accum)]
                        {
                            let g = self.groups[q];
                            &&& match reply {
                                Some(r) => takes_in(g.accum, client, r, w.kind, accum),
                                None => accum == g.accum,
                            }
                            &&& if g.remaining <= 1 {
                                after == (Board { groups: self.groups.remove(q), ..b }) && outcome == outcome_of(accum)
                            } else {
                                after == (Board {
                                    groups: self.groups.remove(q).push(
                                        Group { id: g.id, remaining: (g.remaining - 1) as usize, accum },
                                    ),
                                    ..b
                                }) && outcome == OutcomeView::Nothing
                            }
                        },
                }
            },
        }
    }
}

/// A copy of a finding.
pub fn copy_diagnostic(d: &Diagnostic) -> (r: Diagnostic)
    ensures
        r == *d,
{
    Diagnostic {
        range: d.range,
        severity: d.severity,
        message: d.message.clone(),
        source: match &d.source {
            Some(s) => Some(s.clone()),
            None => None,
        },
    }
}

impl LspCoordinator {
    /// No server runs yet and no document is open; servers are to be started
    /// below the given directory.
    pub fn new(startup_cwd: String) -> (r: LspCoordinator)
        ensures
            r@ == (Board {
                clients: Seq::empty(),
                found: Seq::empty(),
                pending: Seq::empty(),
                groups: Seq::empty(),
                next: 0,
                uri: None,
                language: None,
                current: Seq::empty(),
                synced: 0,
                cwd: startup_cwd@,
            }),
    {
        let r = LspCoordinator {
            clients: Vec::new(),
            diagnostics: Vec::new(),
            pending: Vec::new(),
            groups: Vec::new(),
            next_group_id: 0,
            current_uri: None,
            current_language: None,
            current_clients: Vec::new(),
            last_synced_version: 0,
            startup_cwd,
        };
        proof {
            assert(r@.clients =~= Seq::empty());
            assert(r@.found =~= Seq::empty());
            assert(r@.pending =~= Seq::empty());
            assert(r@.groups =~= Seq::empty());
            assert(r@.current =~= Seq::empty());
        }
        r
    }

    pub fn last_synced_version(&self) -> (r: u64)
        ensures
            r == self@.synced,
    {
        self.last_synced_version
    }

    /// The directory that the editor was started in.
    pub fn startup_cwd(&self) -> (r: &str)
        ensures
            r@ == self@.cwd,
    {
        self.startup_cwd.as_str()
    }

    pub fn set_last_synced_version(&mut self, v: u64)
        ensures
            final(self)@ == (Board { synced: v, ..old(self)@ }),
    {
        self.last_synced_version = v;
    }

    /// Whether a server serves the open document.
    pub fn has_lsp(&self) -> (r: bool)
        ensures
            r == self@.serves(),
    {
        assert(self@.current.len() == self.current_clients@.len());
        self.current_uri.is_some() && self.current_clients.len() > 0
    }

    pub fn current_uri(&self) -> (r: Option<&str>)
        ensures
            match (r, self@.uri) {
                (Some(a), Some(b)) => a@ == b,
                (None, None) => true,
                _ => false,
            },
    {
        match &self.current_uri {
            Some(u) => Some(u.as_str()),
            None => None,
        }
    }

    fn find_client(&self, key: &str) -> (r: Option<usize>)
        ensures
            match (r, client_at(self@.clients, key@, self@.clients.len() as int)) {
                (Some(a), Some(b)) => a == b && a < self.clients.len(),
                (None, None) => true,
                _ => false,
            },
    {
        let ghost s = self@.clients;
        let mut k: usize = self.clients.len();
        assert(s.len() == self.clients@.len());
        while k > 0
            invariant
                k <= self.clients.len(),
                s == self@.clients,
                client_at(s, key@, s.len() as int) == client_at(s, key@, k as int),
            decreases k,
        {
            assert(s[k - 1] == self.clients@[k - 1]@);
            if same_str(self.clients[k - 1].key.as_str(), key) {
                return Some(k - 1);
            }
            k = k - 1;
        }
        None
    }

    /// Whether a client runs.
    pub fn has_client(&self, key: &str) -> (r: bool)
        ensures
            r == self@.runs(key@),
    {
        self.find_client(key).is_some()
    }

    /// Takes a client in. One that runs already is kept, and the new one
    /// refused.
    pub fn attach_client(&mut self, key: &str, triggers: Vec<String>) -> (r: bool)
        ensures
            r == !old(self)@.runs(key@),
            final(self)@ == if r {
                Board {
                    clients: old(self)@.clients.push(Client { key: key@, triggers: text_of(triggers@) }),
                    ..old(self)@
                }
            } else {
                old(self)@
            },
    {
        if self.has_client(key) {
            return false;
        }
        let ghost before = self.clients@;
        let c = Client { key: copy_str(key), triggers };
        self.clients.push(c);
        proof {
            assert(clients_of(self.clients@) =~= clients_of(before).push(c@));
        }
        true
    }

    fn holds_current(&self, key: &str) -> (r: bool)
        ensures
            r == self@.current.contains(key@),
    {
        let ghost s = self@.current;
        let mut i: usize = 0;
        while i < self.current_clients.len()
            invariant
                i <= self.current_clients.len(),
                s == text_of(self.current_clients@),
                s == self@.current,
                forall|k: int| 0 <= k < i ==> s[k] != key@,
            decreases self.current_clients.len() - i,
        {
            assert(s[i as int] == self.current_clients@[i as int]@);
            if same_str(self.current_clients[i].as_str(), key) {
                return true;
            }
            i = i + 1;
        }
        false
    }

    /// Notes a client as one of the open document.
    pub fn add_current_client(&mut self, key: &str)
        ensures
            final(self)@ == if old(self)@.current.contains(key@) {
                old(self)@
            } else {
                Board { current: old(self)@.current.push(key@), ..old(self)@ }
            },
    {
        if !self.holds_current(key) {
            let ghost before = self.current_clients@;
            self.current_clients.push(copy_str(key));
            proof {
                assert(text_of(self.current_clients@) =~= text_of(before).push(key@));
            }
        }
    }

    /// Notes that a document was opened with a client. Nothing happens where
    /// no such client runs.
    pub fn note_opened(&mut self, key: &str, lang: &str, uri: &str)
        ensures
            !old(self)@.runs(key@) ==> final(self)@ == old(self)@,
            old(self)@.runs(key@) ==> final(self)@ == (Board {
                uri: Some(uri@),
                language: Some(lang@),
                current: if old(self)@.current.contains(key@) {
                    old(self)@.current
                } else {
                    old(self)@.current.push(key@)
                },
                ..old(self)@
            }),
    {
        if !self.has_client(key) {
            return;
        }
        self.current_uri = Some(copy_str(uri));
        self.current_language = Some(copy_str(lang));
        self.add_current_client(key);
    }

    /// Closes the open document: what it was, and the clients to tell.
    pub fn detach_current(&mut self) -> (r: Option<(String, Vec<String>)>)
        ensures
            match old(self)@.uri {
                None => r is None && final(self)@ == old(self)@,
                Some(u) => {
                    &&& r matches Some((uri, clients))
                    &&& uri@ == u
                    &&& text_of(clients@) == old(self)@.current
                    &&& final(self)@ == (Board { uri: None, language: None, current: Seq::empty(), ..old(self)@ })
                },
            },
    {
        match self.current_uri.take() {
            None => None,
            Some(uri) => {
                let mut clients: Vec<String> = Vec::new();
                std::mem::swap(&mut clients, &mut self.current_clients);
                self.current_language = None;
                proof {
                    assert(self@.current =~= Seq::empty());
                }
                Some((uri, clients))
            },
        }
    }

    /// Whether a character asks one of the document's clients for
    /// completions.
    pub fn is_completion_trigger_char(&self, c: char) -> (r: bool)
        ensures
            r == exists|i: int|
                0 <= i < self@.current.len() && triggered(self@.clients, #[trigger] self@.current[i], c),
    {
        let ghost s = self@.current;
        let mut i: usize = 0;
        while i < self.current_clients.len()
            invariant
                i <= self.current_clients.len(),
                s == self@.current,
                s.len() == self.current_clients@.len(),
                forall|k: int| 0 <= k < i ==> !triggered(self@.clients, #[trigger] s[k], c),
            decreases self.current_clients.len() - i,
        {
            assert(s[i as int] == self.current_clients@[i as int]@);
            if let Some(p) = self.find_client(self.current_clients[i].as_str()) {
                assert(self@.clients[p as int] == self.clients@[p as int]@);
                if asks(&self.clients[p].triggers, c) {
                    assert(triggered(self@.clients, s[i as int], c));
                    return true;
                }
            }
            i = i + 1;
        }
        false
    }
}

/// Whether a character asks a client for completions.
pub open spec fn triggered(clients: Seq<ClientView>, key: Seq<char>, c: char) -> bool {
    match client_at(clients, key, clients.len() as int) {
        Some(p) => clients[p].triggers.contains(seq![c]),
        None => false,
    }
}

fn asks(triggers: &Vec<String>, c: char) -> (r: bool)
    ensures
        r == text_of(triggers@).contains(seq![c]),
{
    let ghost t = text_of(triggers@);
    let mut one = String::new();
    one.push(c);
    proof {
        reveal_strlit("");
        assert(one@ =~= seq![c]);
    }
    let mut i: usize = 0;
    while i < triggers.len()
        invariant
            i <= triggers.len(),
            t == text_of(triggers@),
            one@ == seq![c],
            forall|k: int| 0 <= k < i ==> t[k] != seq![c],
        decreases triggers.len() - i,
    {
        assert(t[i as int] == triggers@[i as int]@);
        if same_str(triggers[i].as_str(), one.as_str()) {
            return true;
        }
        i = i + 1;
    }
    false
}

/// What a server says of its own accord or in answer.
#[derive(Debug)]
pub enum LspEvent {
    Diagnostics { client: String, uri: String, items: Vec<Diagnostic> },
    Message { level: u8, text: String },
    /// The client has failed.
    Error { client: String, message: String },
    /// An answer, or none where the server reported an error.
    Response { client: String, id: u64, reply: Option<Reply> },
}

impl Board {
    /// Whether what a server says leads to another state and an outcome.
    pub open spec fn heard(self, ev: LspEvent, after: Board, outcome: OutcomeView) -> bool {
        match ev {
            LspEvent::Diagnostics { client, uri, items } => after == self.publish(client@, uri@, items@) && outcome
                == OutcomeView::Nothing,
            LspEvent::Message { level, text } => after == self && outcome == if level == 1 {
                OutcomeView::ErrorMessage(text@)
            } else {
                OutcomeView::InfoMessage(text@)
            },
            LspEvent::Error { client, message } => after == self.without_client(client@) && outcome
                == OutcomeView::ErrorMessage("lsp: "@ + message@),
            LspEvent::Response { client, id, reply } => self.answered(client@, id, reply, after, outcome),
        }
    }
}

impl LspCoordinator {
    fn find_wait(&self, client: &str, id: u64) -> (r: Option<usize>)
        ensures
            match (r, wait_at(self@.pending, client@, id, self@.pending.len() as int)) {
                (Some(a), Some(b)) => a == b && a < self.pending.len(),
                (None, None) => true,
                _ => false,
            },
    {
        let ghost s = self@.pending;
        let mut k: usize = self.pending.len();
        assert(s.len() == self.pending@.len());
        while k > 0
            invariant
                k <= self.pending.len(),
                s == self@.pending,
                wait_at(s, client@, id, s.len() as int) == wait_at(s, client@, id, k as int),
            decreases k,
        {
            assert(s[k - 1] == self.pending@[k - 1]@);
            if self.pending[k - 1].id == id && same_str(self.pending[k - 1].client.as_str(), client) {
                return Some(k - 1);
            }
            k = k - 1;
        }
        None
    }

    fn find_group(&self, id: u64) -> (r: Option<usize>)
        ensures
            match (r, group_at(self@.groups, id, self@.groups.len() as int)) {
                (Some(a), Some(b)) => a == b && a < self.groups.len(),
                (None, None) => true,
                _ => false,
            },
    {
        let ghost s = self@.groups;
        let mut k: usize = self.groups.len();
        assert(s.len() == self.groups@.len());
        while k > 0
            invariant
                k <= self.groups.len(),
                s == self@.groups,
                group_at(s, id, s.len() as int) == group_at(s, id, k as int),
            decreases k,
        {
            assert(s[k - 1] == self.groups@[k - 1]@);
            if self.groups[k - 1].id == id {
                return Some(k - 1);
            }
            k = k - 1;
        }
        None
    }

    /// What a request that waits was for.
    pub fn pending_kind(&self, client: &str, id: u64) -> (r: Option<LspRequestKind>)
        ensures
            r == match wait_at(self@.pending, client@, id, self@.pending.len() as int) {
                Some(p) => Some(self@.pending[p].kind),
                None => None,
            },
    {
        match self.find_wait(client, id) {
            Some(p) => {
                assert(self@.pending[p as int] == self.pending@[p as int]@);
                Some(self.pending[p].kind)
            },
            None => None,
        }
    }

    fn take_wait(&mut self, p: usize) -> (r: Wait)
        requires
            p < old(self).pending.len(),
        ensures
            r@ == old(self)@.pending[p as int],
            final(self)@ == (Board { pending: old(self)@.pending.remove(p as int), ..old(self)@ }),
    {
        let ghost before = self.pending@;
        let w = self.pending.remove(p);
        proof {
            assert(waits_of(self.pending@) =~= waits_of(before).remove(p as int));
        }
        w
    }

    fn take_group(&mut self, p: usize) -> (r: Group)
        requires
            p < old(self).groups.len(),
        ensures
            r@ == old(self)@.groups[p as int],
            final(self)@ == (Board { groups: old(self)@.groups.remove(p as int), ..old(self)@ }),
    {
        let ghost before = self.groups@;
        let g = self.groups.remove(p);
        proof {
            assert(groups_of(self.groups@) =~= groups_of(before).remove(p as int));
        }
        g
    }

    fn push_wait(&mut self, w: Wait)
        ensures
            final(self)@ == (Board { pending: with_wait(old(self)@.pending, w@), ..old(self)@ }),
    {
        if let Some(p) = self.find_wait(w.client.as_str(), w.id) {
            let _ = self.take_wait(p);
        }
        let ghost before = self.pending@;
        self.pending.push(w);
        proof {
            assert(waits_of(self.pending@) =~= waits_of(before).push(w@));
        }
    }

    fn push_group(&mut self, g: Group)
        ensures
            final(self)@ == (Board { groups: old(self)@.groups.push(g@), ..old(self)@ }),
    {
        let ghost before = self.groups@;
        self.groups.push(g);
        proof {
            assert(groups_of(self.groups@) =~= groups_of(before).push(g@));
        }
    }

    /// The number of the next group.
    fn alloc_group(&mut self) -> (r: u64)
        ensures
            r == old(self)@.next,
            final(self)@ == (Board { next: old(self)@.next.wrapping_add(1), ..old(self)@ }),
    {
        let id = self.next_group_id;
        self.next_group_id = self.next_group_id.wrapping_add(1);
        id
    }

    /// Notes a request that was sent to some clients, each by the number that
    /// it gave the request.
    pub fn note_sent(&mut self, sent: Vec<(String, u64)>, kind: LspRequestKind, accum: GroupAccum)
        ensures
            final(self)@ == old(self)@.asked(sent_of(sent@), kind, accum@),
    {
        let ghost b = self@;
        let ghost all = sent_of(sent@);
        let group = self.alloc_group();
        if sent.len() == 0 {
            return;
        }
        let mut i: usize = 0;
        while i < sent.len()
            invariant
                i <= sent.len(),
                all == sent_of(sent@),
                group == b.next,
                self@ == (Board {
                    next: b.next.wrapping_add(1),
                    pending: with_sent(b.pending, all, b.next, kind, i as int),
                    ..b
                }),
            decreases sent.len() - i,
        {
            assert(all[i as int] == (sent@[i as int].0@, sent@[i as int].1));
            self.push_wait(Wait { client: sent[i].0.clone(), id: sent[i].1, group, kind });
            i = i + 1;
        }
        if let Some(p) = self.find_group(group) {
            let _ = self.take_group(p);
        }
        self.push_group(Group { id: group, remaining: sent.len(), accum });
    }

    /// Takes an answer in, and the outcome with the last of its group.
    pub fn handle_response(&mut self, client: &str, id: u64, reply: Option<Reply>) -> (r: LspEventOutcome)
        ensures
            old(self)@.answered(client@, id, reply, final(self)@, r@),
    {
        let p = match self.find_wait(client, id) {
            None => {
                return LspEventOutcome::Nothing;
            },
            Some(p) => p,
        };
        let w = self.take_wait(p);
        let q = match self.find_group(w.group) {
            None => {
                return LspEventOutcome::Nothing;
            },
            Some(q) => q,
        };
        let g = self.take_group(q);
        let accum = match reply {
            Some(r) => accumulate(g.accum, client, r, w.kind),
            None => g.accum,
        };
        let ghost o = outcome_of(accum@);
        if g.remaining <= 1 {
            finalize(accum)
        } else {
            self.push_group(Group { id: g.id, remaining: g.remaining - 1, accum });
            LspEventOutcome::Nothing
        }
    }

    fn answer_less(&mut self, id: u64)
        ensures
            final(self)@ == (Board { groups: one_fewer(old(self)@.groups, id), ..old(self)@ }),
    {
        if let Some(p) = self.find_group(id) {
            assert(self@.groups[p as int] == self.groups@[p as int]@);
            if self.groups[p].remaining <= 1 {
                let _ = self.take_group(p);
            } else {
                let ghost before = self.groups@;
                self.groups[p].remaining = self.groups[p].remaining - 1;
                proof {
                    assert(groups_of(self.groups@) =~= groups_of(before).update(
                        p as int,
                        Group { remaining: (before[p as int].remaining - 1) as usize, ..before[p as int]@ },
                    ));
                }
            }
        }
    }

    fn drop_slices(&mut self, uri: Option<&str>, client: &str)
        ensures
            final(self)@ == (Board {
                found: slices_without(
                    old(self)@.found,
                    match uri {
                        Some(u) => Some(u@),
                        None => None,
                    },
                    client@,
                    old(self)@.found.len() as int,
                ),
                ..old(self)@
            }),
    {
        let ghost b = self@;
        let ghost s = self@.found;
        let ghost u = match uri {
            Some(u) => Some(u@),
            None => None,
        };
        let ghost n = self.diagnostics@.len() as int;
        assert(s.len() == n);
        let mut rest: Vec<Slice> = Vec::new();
        std::mem::swap(&mut rest, &mut self.diagnostics);
        let ghost all = rest@;
        let mut stack: Vec<Slice> = Vec::new();
        while rest.len() > 0
            invariant
                rest@.len() + stack@.len() == n == all.len(),
                forall|i: int| 0 <= i < rest@.len() ==> rest@[i] == all[i],
                forall|i: int| 0 <= i < stack@.len() ==> (#[trigger] stack@[i]) == all[n - 1 - i],
            decreases rest.len(),
        {
            if let Some(c) = rest.pop() {
                stack.push(c);
            }
        }
        let mut out: Vec<Slice> = Vec::new();
        let ghost mut done: int = 0;
        assert(slices_of(out@) =~= slices_without(s, u, client@, 0));
        while stack.len() > 0
            invariant
                0 <= done <= n,
                n == all.len(),
                s == slices_of(all),
                stack@.len() == n - done,
                forall|i: int| 0 <= i < stack@.len() ==> (#[trigger] stack@[i]) == all[n - 1 - i],
                slices_of(out@) == slices_without(s, u, client@, done),
                u == match uri {
                    Some(u) => Some(u@),
                    None => None,
                },
            decreases stack.len(),
        {
            if let Some(c) = stack.pop() {
                assert(c@ == s[done]);
                let drop = same_str(c.client.as_str(), client) && match uri {
                    Some(u) => same_str(c.uri.as_str(), u),
                    None => true,
                };
                if !drop {
                    let ghost before = out@;
                    out.push(c);
                    proof {
                        assert(slices_of(out@) =~= slices_of(before).push(c@));
                    }
                }
                proof {
                    done = done + 1;
                }
            }
        }
        self.diagnostics = out;
    }

    /// Takes in what a client found in a document.
    pub fn publish_diagnostics(&mut self, client: String, uri: String, items: Vec<Diagnostic>)
        ensures
            final(self)@ == old(self)@.publish(client@, uri@, items@),
    {
        self.drop_slices(Some(uri.as_str()), client.as_str());
        if items.len() > 0 {
            let ghost before = self.diagnostics@;
            let s = Slice { uri, client, items };
            self.diagnostics.push(s);
            proof {
                assert(slices_of(self.diagnostics@) =~= slices_of(before).push(s@));
            }
        }
    }

    fn drop_waits(&mut self, client: &str)
        ensures
            final(self)@ == (Board {
                pending: waits_without(old(self)@.pending, client@, old(self)@.pending.len() as int),
                groups: groups_without(
                    old(self)@.groups,
                    old(self)@.pending,
                    client@,
                    old(self)@.pending.len() as int,
                ),
                ..old(self)@
            }),
    {
        let ghost b = self@;
        let ghost s = self@.pending;
        let mut rest: Vec<Wait> = Vec::new();
        std::mem::swap(&mut rest, &mut self.pending);
        let ghost all = rest@;
        let ghost n = all.len() as int;
        let mut stack: Vec<Wait> = Vec::new();
        while rest.len() > 0
            invariant
                rest@.len() + stack@.len() == n == all.len(),
                forall|i: int| 0 <= i < rest@.len() ==> rest@[i] == all[i],
                forall|i: int| 0 <= i < stack@.len() ==> (#[trigger] stack@[i]) == all[n - 1 - i],
            decreases rest.len(),
        {
            if let Some(c) = rest.pop() {
                stack.push(c);
            }
        }
        let ghost mut done: int = 0;
        assert(self@.pending =~= waits_without(s, client@, 0));
        while stack.len() > 0
            invariant
                0 <= done <= n,
                n == all.len(),
                s == waits_of(all),
                s == b.pending,
                stack@.len() == n - done,
                forall|i: int| 0 <= i < stack@.len() ==> (#[trigger] stack@[i]) == all[n - 1 - i],
                self@ == (Board {
                    pending: waits_without(s, client@, done),
                    groups: groups_without(b.groups, s, client@, done),
                    ..b
                }),
            decreases stack.len(),
        {
            if let Some(w) = stack.pop() {
                assert(w@ == s[done]);
                if same_str(w.client.as_str(), client) {
                    self.answer_less(w.group);
                } else {
                    let ghost before = self.pending@;
                    self.pending.push(w);
                    proof {
                        assert(waits_of(self.pending@) =~= waits_of(before).push(w@));
                    }
                }
                proof {
                    done = done + 1;
                }
            }
        }
    }

    fn drop_names(&mut self, key: &str)
        ensures
            final(self)@ == (Board {
                clients: clients_without(old(self)@.clients, key@, old(self)@.clients.len() as int),
                current: names_without(old(self)@.current, key@, old(self)@.current.len() as int),
                ..old(self)@
            }),
    {
        let ghost b = self@;
        let mut names: Vec<String> = Vec::new();
        let mut i: usize = 0;
        assert(b.current.len() == self.current_clients@.len());
        assert(text_of(names@) =~= names_without(b.current, key@, 0));
        while i < self.current_clients.len()
            invariant
                i <= self.current_clients.len(),
                b == self@,
                text_of(names@) == names_without(b.current, key@, i as int),
            decreases self.current_clients.len() - i,
        {
            assert(b.current[i as int] == self.current_clients@[i as int]@);
            if !same_str(self.current_clients[i].as_str(), key) {
                let ghost before = names@;
                let n = self.current_clients[i].clone();
                names.push(n);
                proof {
                    assert(text_of(names@) =~= text_of(before).push(n@));
                }
            }
            i = i + 1;
        }
        self.current_clients = names;
        let mut rest: Vec<Client> = Vec::new();
        std::mem::swap(&mut rest, &mut self.clients);
        let ghost all = rest@;
        let ghost s = b.clients;
        let ghost n = all.len() as int;
        let mut stack: Vec<Client> = Vec::new();
        while rest.len() > 0
            invariant
                rest@.len() + stack@.len() == n == all.len(),
                forall|i: int| 0 <= i < rest@.len() ==> rest@[i] == all[i],
                forall|i: int| 0 <= i < stack@.len() ==> (#[trigger] stack@[i]) == all[n - 1 - i],
            decreases rest.len(),
        {
            if let Some(c) = rest.pop() {
                stack.push(c);
            }
        }
        let mut out: Vec<Client> = Vec::new();
        let ghost mut done: int = 0;
        assert(clients_of(out@) =~= clients_without(s, key@, 0));
        while stack.len() > 0
            invariant
                0 <= done <= n,
                n == all.len(),
                s == clients_of(all),
                stack@.len() == n - done,
                forall|i: int| 0 <= i < stack@.len() ==> (#[trigger] stack@[i]) == all[n - 1 - i],
                clients_of(out@) == clients_without(s, key@, done),
            decreases stack.len(),
        {
            if let Some(c) = stack.pop() {
                assert(c@ == s[done]);
                if !same_str(c.key.as_str(), key) {
                    let ghost before = out@;
                    out.push(c);
                    proof {
                        assert(clients_of(out@) =~= clients_of(before).push(c@));
                    }
                }
                proof {
                    done = done + 1;
                }
            }
        }
        self.clients = out;
    }

    /// Forgets a client that is gone.
    pub fn drop_client(&mut self, key: &str)
        ensures
            final(self)@ == old(self)@.without_client(key@),
    {
        self.drop_names(key);
        self.drop_waits(key);
        self.drop_slices(None, key);
    }

    /// Takes in what a server says.
    pub fn handle_event(&mut self, ev: LspEvent) -> (r: LspEventOutcome)
        ensures
            old(self)@.heard(ev, final(self)@, r@),
    {
        match ev {
            LspEvent::Diagnostics { client, uri, items } => {
                self.publish_diagnostics(client, uri, items);
                LspEventOutcome::Nothing
            },
            LspEvent::Message { level, text } => {
                if level == 1 {
                    LspEventOutcome::ErrorMessage(text)
                } else {
                    LspEventOutcome::InfoMessage(text)
                }
            },
            LspEvent::Error { client, message } => {
                self.drop_client(client.as_str());
                let mut said = copy_str("lsp: ");
                push_str(&mut said, message.as_str());
                LspEventOutcome::ErrorMessage(said)
            },
            LspEvent::Response { client, id, reply } => self.handle_response(client.as_str(), id, reply),
        }
    }
}

} // verus!
