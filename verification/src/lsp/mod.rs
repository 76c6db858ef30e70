//! The values that language servers speak of, and edits of the text.
use vstd::prelude::*;

pub mod board_laws;
pub mod coordinator;
pub mod edits;
pub mod group;
pub mod laws;
pub mod requests;
pub mod tally;
pub mod wire;

verus! {

/// A position: a line and a character, both counted from zero.
#[derive(Debug, Clone, Copy, PartialEq, Eq, Structural)]
pub struct Position {
    pub line: u32,
    pub character: u32,
}

/// From one position up to another, which is left out.
#[derive(Debug, Clone, Copy, PartialEq, Eq, Structural)]
pub struct Range {
    pub start: Position,
    pub end: Position,
}

/// A range and the text to put in its place.
#[derive(Debug)]
pub struct TextEdit<S = String> {
    pub range: Range,
    pub new_text: S,
}

impl View for TextEdit {
    type V = TextEdit<Seq<char>>;

    open spec fn view(&self) -> TextEdit<Seq<char>> {
        TextEdit { range: self.range, new_text: self.new_text@ }
    }
}

pub open spec fn edits_of(v: Seq<TextEdit>) -> Seq<TextEdit<Seq<char>>> {
    Seq::new(v.len(), |i: int| v[i]@)
}

impl TextEdit {
    pub fn copy(&self) -> (r: TextEdit)
        ensures
            r@ == self@,
    {
        TextEdit { range: self.range, new_text: self.new_text.clone() }
    }
}

/// A copy of a list of edits.
pub fn copy_edits(v: &Vec<TextEdit>) -> (r: Vec<TextEdit>)
    ensures
        edits_of(r@) == edits_of(v@),
{
    let mut out: Vec<TextEdit> = Vec::new();
    let mut i: usize = 0;
    while i < v.len()
        invariant
            i <= v.len(),
            edits_of(out@) == edits_of(v@.take(i as int)),
        decreases v.len() - i,
    {
        let e = v[i].copy();
        let ghost before = out@;
        out.push(e);
        proof {
            assert(edits_of(out@) =~= edits_of(before).push(e@));
            assert(edits_of(v@.take(i + 1)) =~= edits_of(v@.take(i as int)).push(v@[i as int]@));
        }
        i = i + 1;
    }
    proof {
        assert(v@.take(i as int) =~= v@);
    }
    out
}

/// A place in a document.
#[derive(Debug, Clone)]
pub struct Location {
    pub uri: String,
    pub range: Range,
}

/// Edits of several documents, each by its URI.
#[derive(Debug)]
pub struct WorkspaceEdit {
    pub changes: Vec<(String, Vec<TextEdit>)>,
}

#[derive(Debug, Clone, Copy, PartialEq, Eq, Structural)]
pub enum Severity {
    Error,
    Warning,
    Info,
    Hint,
}

impl Severity {
    /// The number that stands for the severity on the wire.
    pub fn code(self) -> (r: u8)
        ensures
            r == match self {
                Severity::Error => 1u8,
                Severity::Warning => 2u8,
                Severity::Info => 3u8,
                Severity::Hint => 4u8,
            },
    {
        match self {
            Severity::Error => 1,
            Severity::Warning => 2,
            Severity::Info => 3,
            Severity::Hint => 4,
        }
    }
}

/// A finding of a server.
#[derive(Debug, Clone)]
pub struct Diagnostic {
    pub range: Range,
    pub severity: Severity,
    pub message: String,
    pub source: Option<String>,
}

#[derive(Debug, Clone)]
pub struct Hover {
    pub contents: String,
}

/// A completion that a server offers. `raw` is the item as it came, for the
/// server to resolve; `source` is the client it came from.
#[derive(Debug)]
pub struct CompletionItem {
    pub label: String,
    pub kind: u8,
    pub text_edit: Option<TextEdit>,
    pub insert_text: Option<String>,
    pub filter_text: Option<String>,
    pub sort_text: Option<String>,
    pub detail: Option<String>,
    pub additional_text_edits: Vec<TextEdit>,
    pub raw: String,
    pub source: String,
}

impl CompletionItem {
    /// What the item puts into the text: the text of its edit, else the text
    /// it names, else its label.
    pub open spec fn inserted(self) -> Seq<char> {
        match self.text_edit {
            Some(e) => e.new_text@,
            None => match self.insert_text {
                Some(s) => s@,
                None => self.label@,
            },
        }
    }

    /// The text that the item is matched by.
    pub open spec fn matched(self) -> Seq<char> {
        match self.filter_text {
            Some(s) => s@,
            None => self.label@,
        }
    }

    /// The text that the item is ordered by.
    pub open spec fn ordered(self) -> Seq<char> {
        match self.sort_text {
            Some(s) => s@,
            None => self.label@,
        }
    }

    pub fn insertion(&self) -> (r: String)
        ensures
            r@ == self.inserted(),
    {
        match &self.text_edit {
            Some(e) => e.new_text.clone(),
            None => match &self.insert_text {
                Some(s) => s.clone(),
                None => self.label.clone(),
            },
        }
    }

    pub fn filter_key(&self) -> (r: &str)
        ensures
            r@ == self.matched(),
    {
        match &self.filter_text {
            Some(s) => s.as_str(),
            None => self.label.as_str(),
        }
    }

    pub fn sort_key(&self) -> (r: &str)
        ensures
            r@ == self.ordered(),
    {
        match &self.sort_text {
            Some(s) => s.as_str(),
            None => self.label.as_str(),
        }
    }
}

/// An action that a server offers. `raw` is the action as it came, for the
/// server to resolve; `source` is the client it came from.
#[derive(Debug)]
pub struct CodeAction {
    pub title: String,
    pub edit: Option<WorkspaceEdit>,
    pub raw: String,
    pub source: String,
}

/// One way to call a function.
#[derive(Debug, Clone)]
pub struct Signature {
    pub label: String,
    pub parameters: Vec<String>,
    pub active_parameter: Option<usize>,
}

/// The ways to call the function at the cursor.
#[derive(Debug, Clone)]
pub struct SignatureHelp {
    pub signatures: Vec<Signature>,
    pub active_signature: usize,
    pub active_parameter: Option<usize>,
}

} // verus!
