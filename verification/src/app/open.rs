//! What was started when a file was opened, and what becomes of it.
use vstd::prelude::*;
use crate::app::status::Level;
use crate::app::{App, Desk};
use crate::config::languages::LspConfig;
use crate::lsp::coordinator::{client_key, key_of, Board, Client, LspCoordinator};
use crate::syntax::Highlighter;
use crate::text::{copy_str, join_lines, push_str, text_of};

verus! {

/// What is to be done about a server of the buffer's language.
#[derive(Debug)]
pub enum ServerStep<S = String> {
    /// It runs: tell it of the document.
    Open(S),
    /// Start it, by its place among the servers of the language.
    Start { key: S, server: usize },
}

impl View for ServerStep {
    type V = ServerStep<Seq<char>>;

    open spec fn view(&self) -> ServerStep<Seq<char>> {
        match self {
            ServerStep::Open(k) => ServerStep::Open(k@),
            ServerStep::Start { key, server } => ServerStep::Start { key: key@, server: *server },
        }
    }
}

pub open spec fn steps_of(v: Seq<ServerStep>) -> Seq<ServerStep<Seq<char>>> {
    Seq::new(v.len(), |i: int| v[i]@)
}

pub open spec fn server_step(b: Board, lang: Seq<char>, servers: Seq<LspConfig>, i: int) -> ServerStep<Seq<char>> {
    let key = key_of(lang, servers[i].name@);
    if b.runs(key) {
        ServerStep::Open(key)
    } else {
        ServerStep::Start { key, server: i as usize }
    }
}

impl Desk {
    /// What is to be done about the servers of the buffer's language.
    pub open spec fn server_steps(self, b: Board) -> Seq<ServerStep<Seq<char>>> {
        match self.language() {
            None => Seq::empty(),
            Some(l) => Seq::new(l.lsp@.len(), |i: int| server_step(b, l.name@, l.lsp@, i)),
        }
    }
}

/// Why a server was not started.
#[derive(Debug)]
pub enum StartError {
    /// There is no such program.
    NotFound,
    Failed(String),
}

impl App {
    /// What is to be done about the servers of the buffer's language: those
    /// that run are told of the document, the others are started.
    pub fn plan_servers(&self, lsp: &LspCoordinator) -> (r: Vec<ServerStep>)
        requires
            self.config.wf(),
        ensures
            steps_of(r@) == self@.server_steps(lsp@),
    {
        let mut out: Vec<ServerStep> = Vec::new();
        match self.language() {
            None => {
                assert(steps_of(out@) =~= self@.server_steps(lsp@));
            },
            Some(l) => {
                let ghost all = self@.server_steps(lsp@);
                assert(steps_of(out@) =~= all.take(0));
                let mut i: usize = 0;
                while i < l.lsp.len()
                    invariant
                        i <= l.lsp.len(),
                        all.len() == l.lsp@.len(),
                        forall|k: int| 0 <= k < all.len() ==> #[trigger] all[k] == server_step(
                            lsp@,
                            l.name@,
                            l.lsp@,
                            k,
                        ),
                        steps_of(out@) == all.take(i as int),
                    decreases l.lsp.len() - i,
                {
                    let key = client_key(l.name.as_str(), l.lsp[i].name.as_str());
                    let ghost before = out@;
                    let step = if lsp.has_client(key.as_str()) {
                        ServerStep::Open(key)
                    } else {
                        ServerStep::Start { key, server: i }
                    };
                    out.push(step);
                    proof {
                        assert(step@ == all[i as int]);
                        assert(steps_of(out@) =~= steps_of(before).push(step@));
                        assert(all.take(i + 1) =~= all.take(i as int).push(all[i as int]));
                    }
                    i = i + 1;
                }
                assert(all.take(i as int) =~= all);
            },
        }
        out
    }

    /// Takes over a server that was started, or says why it was not. What was
    /// started for another buffer is dropped; so is a server that runs
    /// already. A program that is not there is passed over in silence.
    /// Whether the server is to be told of the document.
    pub fn handle_lsp_ready(
        &mut self,
        lsp: &mut LspCoordinator,
        generation: u64,
        key: &str,
        lang: &str,
        result: Result<Vec<String>, StartError>,
    ) -> (r: bool)
        ensures
            r == (generation == old(self)@.gen && result is Ok && !old(lsp)@.runs(key@)),
            final(self)@ == match result {
                Err(StartError::Failed(e)) => if generation == old(self)@.gen {
                    old(self)@.saying(Level::Error, "lsp ("@ + lang@ + "): "@ + e@)
                } else {
                    old(self)@
                },
                _ => old(self)@,
            },
            final(lsp)@ == if r {
                Board {
                    clients: old(lsp)@.clients.push(
                        Client { key: key@, triggers: text_of(result->Ok_0@) },
                    ),
                    synced: old(self)@.doc.version,
                    ..old(lsp)@
                }
            } else {
                old(lsp)@
            },
    {
        if !self.is_current_gen(generation) {
            return false;
        }
        match result {
            Ok(triggers) => {
                if lsp.attach_client(key, triggers) {
                    lsp.set_last_synced_version(self.buffer.version);
                    true
                } else {
                    false
                }
            },
            Err(StartError::NotFound) => false,
            Err(StartError::Failed(e)) => {
                let mut s = copy_str("lsp (");
                push_str(&mut s, lang);
                push_str(&mut s, "): ");
                push_str(&mut s, e.as_str());
                self.say(Level::Error, s.as_str());
                false
            },
        }
    }

    /// Takes over a highlighter that was made, or says why it was not. One for
    /// another buffer is dropped. The text may have changed since it was made:
    /// then it is parsed again.
    pub fn handle_highlighter_ready(&mut self, generation: u64, result: Result<Highlighter, String>) -> (r: Option<
        Highlighter,
    >)
        requires
            result matches Ok(h) ==> h.wf(),
        ensures
            r is Some == (generation == old(self)@.gen && result is Ok),
            r matches Some(h) ==> {
                let text = old(self)@.doc.text;
                &&& h.wf()
                &&& if old(self)@.doc.version == 0 {
                    h == result->Ok_0
                } else {
                    h.caught_up(result->Ok_0, crate::text::join(text, 0, text.len() as int), old(self)@.doc.version)
                }
            },
            final(self)@ == match result {
                Err(e) => if generation == old(self)@.gen {
                    old(self)@.saying(Level::Error, "highlight: "@ + e@)
                } else {
                    old(self)@
                },
                _ => old(self)@,
            },
    {
        if !self.is_current_gen(generation) {
            return None;
        }
        match result {
            Ok(h) => {
                let mut h = h;
                if self.buffer.version != 0 {
                    assert(self.buffer@.text.len() == self.buffer.lines@.len());
                    let n = self.buffer.lines.len();
                    let source = join_lines(&self.buffer.lines, 0, n);
                    h.refresh(source.as_str(), self.buffer.version);
                }
                Some(h)
            },
            Err(e) => {
                let mut s = copy_str("highlight: ");
                push_str(&mut s, e.as_str());
                self.say(Level::Error, s.as_str());
                None
            },
        }
    }
}

} // verus!
