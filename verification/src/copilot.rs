//! Listening to the server that suggests text.
use vstd::prelude::*;
use crate::lsp::wire::{quote, quoted};
use crate::number::{decimal, to_decimal};
use crate::text::{copy_str, push_str, same_str};

verus! {

/// What the server is told of in the main loop.
#[derive(Debug)]
pub enum CopilotEvent<S = String> {
    /// A message, with its severity: one is an error.
    Message { level: u8, text: S },
    /// The server is gone.
    Error { message: S },
}

impl View for CopilotEvent {
    type V = CopilotEvent<Seq<char>>;

    open spec fn view(&self) -> CopilotEvent<Seq<char>> {
        match self {
            CopilotEvent::Message { level, text } => CopilotEvent::Message { level: *level, text: text@ },
            CopilotEvent::Error { message } => CopilotEvent::Error { message: message@ },
        }
    }
}

/// A message of the server, in what is read of it.
#[derive(Debug)]
pub struct Heard {
    /// Its number, where it has one that is a whole number.
    pub id: Option<u64>,
    pub has_id: bool,
    pub has_method: bool,
    /// Its method, where that is a text.
    pub method: Option<String>,
    /// Whether the answer reports an error.
    pub has_error: bool,
    pub has_params: bool,
    /// The severity of what it says, where that is a whole number.
    pub level: Option<u64>,
    /// What it says, where that is a text.
    pub text: Option<String>,
}

/// What is to be done about a message.
#[derive(Debug)]
pub enum HeardStep<S = String> {
    /// The server asks for something: give it an answer.
    Answer,
    Ignore,
    Emit(CopilotEvent<S>),
}

impl View for HeardStep {
    type V = HeardStep<Seq<char>>;

    open spec fn view(&self) -> HeardStep<Seq<char>> {
        match self {
            HeardStep::Answer => HeardStep::Answer,
            HeardStep::Ignore => HeardStep::Ignore,
            HeardStep::Emit(e) => HeardStep::Emit(
                match e {
                    CopilotEvent::Message { level, text } => CopilotEvent::Message { level: *level, text: text@ },
                    CopilotEvent::Error { message } => CopilotEvent::Error { message: message@ },
                },
            ),
        }
    }
}

impl Heard {
    pub open spec fn says(self) -> bool {
        self.method matches Some(m) && (m@ == "window/showMessage"@ || m@ == "window/logMessage"@)
    }

    /// What is to be done: requests of the server are answered, its messages
    /// are passed on, and answers and other notices are left aside.
    pub open spec fn step(self) -> HeardStep<Seq<char>> {
        if self.has_id && self.has_method {
            HeardStep::Answer
        } else if self.has_method && self.says() && self.has_params {
            HeardStep::Emit(
                CopilotEvent::Message {
                    level: match self.level {
                        Some(n) => n as u8,
                        None => 3,
                    },
                    text: match self.text {
                        Some(t) => t@,
                        None => ""@,
                    },
                },
            )
        } else {
            HeardStep::Ignore
        }
    }

    /// What is to be done about the message.
    pub fn read(&self) -> (r: HeardStep)
        ensures
            r@ == self.step(),
    {
        if self.has_id && self.has_method {
            return HeardStep::Answer;
        }
        if !self.has_method || !self.has_params {
            return HeardStep::Ignore;
        }
        let says = match &self.method {
            Some(m) => same_str(m.as_str(), "window/showMessage") || same_str(m.as_str(), "window/logMessage"),
            None => false,
        };
        if !says {
            return HeardStep::Ignore;
        }
        let level: u8 = match self.level {
            Some(n) => {
                #[verifier::truncate]
                let l = n as u8;
                l
            },
            None => 3,
        };
        let text = match &self.text {
            Some(t) => t.clone(),
            None => copy_str(""),
        };
        HeardStep::Emit(CopilotEvent::Message { level, text })
    }

    /// Whether the message answers a request of ours.
    pub fn answers(&self, id: u64) -> (r: bool)
        ensures
            r == (self.id == Some(id) && !self.has_method),
    {
        match self.id {
            Some(n) => n == id && !self.has_method,
            None => false,
        }
    }
}

/// What is told to the main loop when the server cannot be read any more.
pub fn reader_failed(cause: &str) -> (r: CopilotEvent)
    ensures
        r@ == (CopilotEvent::Error { message: "copilot reader: "@ + cause@ }),
{
    let mut s = copy_str("copilot reader: ");
    push_str(&mut s, cause);
    CopilotEvent::Error { message: s }
}

/// Whether the server is still there after an event.
pub fn handle_copilot_event(ev: &CopilotEvent, alive: bool) -> (r: bool)
    ensures
        r == (alive && !(ev is Error)),
{
    match ev {
        CopilotEvent::Message { .. } => alive,
        CopilotEvent::Error { .. } => false,
    }
}

/// How the editor names itself.
pub open spec fn named(version: Seq<char>) -> Seq<char> {
    "{\"name\":\"vorto\",\"version\":"@ + quoted(version) + "}"@
}

/// What the server is told when it is started.
pub open spec fn greeting(pid: u32, root_uri: Seq<char>, version: Seq<char>) -> Seq<char> {
    "{\"processId\":"@ + decimal(pid as int) + ",\"rootUri\":"@ + quoted(root_uri)
        + ",\"capabilities\":{\"workspace\":{\"workspaceFolders\":true},\"textDocument\":{\"synchronization\":{\"didSave\":true},\"inlineCompletion\":{}}},\"initializationOptions\":{\"editorInfo\":"@
        + named(version) + ",\"editorPluginInfo\":"@ + named(version) + "},\"clientInfo\":"@ + named(version) + "}"@
}

fn write_name(version: &str) -> (r: String)
    ensures
        r@ == named(version@),
{
    let mut s = copy_str("{\"name\":\"vorto\",\"version\":");
    push_str(&mut s, quote(version).as_str());
    push_str(&mut s, "}");
    s
}

/// What the server is told when it is started, as JSON. It takes no editor
/// that does not name itself and its plugin.
pub fn initialize_params(pid: u32, root_uri: &str, version: &str) -> (r: String)
    ensures
        r@ == greeting(pid, root_uri@, version@),
{
    let me = write_name(version);
    let mut s = copy_str("{\"processId\":");
    push_str(&mut s, to_decimal(pid as usize).as_str());
    push_str(&mut s, ",\"rootUri\":");
    push_str(&mut s, quote(root_uri).as_str());
    push_str(
        &mut s,
        ",\"capabilities\":{\"workspace\":{\"workspaceFolders\":true},\"textDocument\":{\"synchronization\":{\"didSave\":true},\"inlineCompletion\":{}}},\"initializationOptions\":{\"editorInfo\":",
    );
    push_str(&mut s, me.as_str());
    push_str(&mut s, ",\"editorPluginInfo\":");
    push_str(&mut s, me.as_str());
    push_str(&mut s, "},\"clientInfo\":");
    push_str(&mut s, me.as_str());
    push_str(&mut s, "}");
    s
}

} // verus!
