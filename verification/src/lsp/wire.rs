//! What is said to servers, as JSON text.
use vstd::prelude::*;
use crate::app::runtime::FormattingOptions;
use crate::lsp::requests::{Params, ParamsView};
use crate::lsp::{Diagnostic, Range, Severity};
use crate::number::{decimal, to_decimal, wide_to_decimal};
use crate::text::{copy_str, push_str};

verus! {

/// A hexadecimal digit.
pub open spec fn hex_digit(d: int) -> char {
    if d < 10 {
        ('0' as u32 + d) as char
    } else {
        ('a' as u32 + d - 10) as char
    }
}

/// A character as it stands in a JSON string.
pub open spec fn escape(c: char) -> Seq<char> {
    if c == '"' || c == '\\' {
        seq!['\\', c]
    } else if c as u32 == 0x08 {
        seq!['\\', 'b']
    } else if c == '\t' {
        seq!['\\', 't']
    } else if c == '\n' {
        seq!['\\', 'n']
    } else if c as u32 == 0x0c {
        seq!['\\', 'f']
    } else if c == '\r' {
        seq!['\\', 'r']
    } else if (c as u32) < 0x20 {
        seq!['\\', 'u', '0', '0', hex_digit(c as int / 16), hex_digit(c as int % 16)]
    } else {
        seq![c]
    }
}

/// A text as it stands in a JSON string.
pub open spec fn escaped(s: Seq<char>) -> Seq<char>
    decreases s.len(),
{
    if s.len() == 0 {
        Seq::empty()
    } else {
        escaped(s.drop_last()) + escape(s.last())
    }
}

/// A text as a JSON string.
pub open spec fn quoted(s: Seq<char>) -> Seq<char> {
    seq!['"'] + escaped(s) + seq!['"']
}

/// `serde_json::to_string` of a text. It gives the text between quotation
/// marks. Quotation marks, backslashes and control characters are escaped,
/// with the short forms where JSON has them; all else stays as it is.
#[verifier::external_body]
pub(crate) fn quote(s: &str) -> (r: String)
    ensures
        r@ == quoted(s@),
{
    serde_json::to_string(s).unwrap()
}

/// A place in a document.
pub open spec fn place_text(line: int, character: int) -> Seq<char> {
    "{\"line\":"@ + decimal(line) + ",\"character\":"@ + decimal(character) + "}"@
}

pub open spec fn range_text(r: Range) -> Seq<char> {
    "{\"start\":"@ + place_text(r.start.line as int, r.start.character as int) + ",\"end\":"@ + place_text(
        r.end.line as int,
        r.end.character as int,
    ) + "}"@
}

pub open spec fn severity_number(s: Severity) -> int {
    match s {
        Severity::Error => 1,
        Severity::Warning => 2,
        Severity::Info => 3,
        Severity::Hint => 4,
    }
}

pub open spec fn diagnostic_text(d: Diagnostic) -> Seq<char> {
    "{\"range\":"@ + range_text(d.range) + ",\"severity\":"@ + decimal(severity_number(d.severity)) + ",\"message\":"@
        + quoted(d.message@) + ",\"source\":"@ + (match d.source {
        Some(s) => quoted(s@),
        None => "null"@,
    }) + "}"@
}

/// The first `k` findings, with commas between them.
pub open spec fn diagnostics_text(v: Seq<Diagnostic>, k: int) -> Seq<char>
    decreases k,
{
    if k <= 0 {
        Seq::empty()
    } else if k == 1 {
        diagnostic_text(v[0])
    } else {
        diagnostics_text(v, k - 1) + ","@ + diagnostic_text(v[k - 1])
    }
}

/// The start of what goes with a request: the document.
pub open spec fn document_text(uri: Seq<char>) -> Seq<char> {
    "{\"textDocument\":{\"uri\":"@ + quoted(uri) + "}"@
}

/// The start of what goes with a request: the document and the place.
pub open spec fn position_text(uri: Seq<char>, line: u64, character: u64) -> Seq<char> {
    document_text(uri) + ",\"position\":"@ + place_text(line as int, character as int)
}

/// What goes with a request, as JSON.
pub open spec fn params_text(p: ParamsView) -> Seq<char> {
    match p {
        Params::Position { uri, line, character } => position_text(uri, line, character) + "}"@,
        Params::References { uri, line, character } => position_text(uri, line, character)
            + ",\"context\":{\"includeDeclaration\":true}}"@,
        Params::Found { uri, line, character, diagnostics } => document_text(uri) + ",\"range\":{\"start\":"@
            + place_text(line as int, character as int) + ",\"end\":"@ + place_text(line as int, character as int)
            + "},\"context\":{\"diagnostics\":["@ + diagnostics_text(diagnostics, diagnostics.len() as int) + "]}}"@,
        Params::Completion { uri, line, character, trigger } => position_text(uri, line, character) + match trigger {
            Some(c) => ",\"context\":{\"triggerKind\":2,\"triggerCharacter\":"@ + quoted(seq![c]) + "}}"@,
            None => ",\"context\":{\"triggerKind\":1}}"@,
        },
        Params::Rename { uri, line, character, new_name } => position_text(uri, line, character) + ",\"newName\":"@
            + quoted(new_name) + "}"@,
        Params::Raw(s) => s,
    }
}

fn write_place(line: u64, character: u64) -> (r: String)
    ensures
        r@ == place_text(line as int, character as int),
{
    let mut s = copy_str("{\"line\":");
    push_str(&mut s, wide_to_decimal(line as u128).as_str());
    push_str(&mut s, ",\"character\":");
    push_str(&mut s, wide_to_decimal(character as u128).as_str());
    push_str(&mut s, "}");
    s
}

fn write_range(r: Range) -> (s: String)
    ensures
        s@ == range_text(r),
{
    let mut s = copy_str("{\"start\":");
    push_str(&mut s, write_place(r.start.line as u64, r.start.character as u64).as_str());
    push_str(&mut s, ",\"end\":");
    push_str(&mut s, write_place(r.end.line as u64, r.end.character as u64).as_str());
    push_str(&mut s, "}");
    s
}

/// A finding as JSON.
pub fn diagnostic_to_json(d: &Diagnostic) -> (r: String)
    ensures
        r@ == diagnostic_text(*d),
{
    let mut s = copy_str("{\"range\":");
    push_str(&mut s, write_range(d.range).as_str());
    push_str(&mut s, ",\"severity\":");
    push_str(&mut s, to_decimal(d.severity.code() as usize).as_str());
    push_str(&mut s, ",\"message\":");
    push_str(&mut s, quote(d.message.as_str()).as_str());
    push_str(&mut s, ",\"source\":");
    match &d.source {
        Some(t) => push_str(&mut s, quote(t.as_str()).as_str()),
        None => push_str(&mut s, "null"),
    }
    push_str(&mut s, "}");
    s
}

fn write_diagnostics(v: &Vec<Diagnostic>) -> (r: String)
    ensures
        r@ == diagnostics_text(v@, v@.len() as int),
{
    let mut s = String::new();
    proof {
        reveal_strlit("");
        assert(s@ =~= diagnostics_text(v@, 0));
    }
    let mut i: usize = 0;
    while i < v.len()
        invariant
            i <= v.len(),
            s@ == diagnostics_text(v@, i as int),
        decreases v.len() - i,
    {
        if i > 0 {
            push_str(&mut s, ",");
        }
        push_str(&mut s, diagnostic_to_json(&v[i]).as_str());
        proof {
            if i == 0 {
                assert(s@ =~= diagnostic_text(v@[0]));
            }
        }
        i = i + 1;
    }
    s
}

fn write_document(uri: &str) -> (r: String)
    ensures
        r@ == document_text(uri@),
{
    let mut s = copy_str("{\"textDocument\":{\"uri\":");
    push_str(&mut s, quote(uri).as_str());
    push_str(&mut s, "}");
    s
}

fn write_position(uri: &str, line: u64, character: u64) -> (r: String)
    ensures
        r@ == position_text(uri@, line, character),
{
    let mut s = write_document(uri);
    push_str(&mut s, ",\"position\":");
    push_str(&mut s, write_place(line, character).as_str());
    s
}

/// What goes with a request, as JSON.
pub fn params_to_json(p: &Params) -> (r: String)
    ensures
        r@ == params_text(p@),
{
    match p {
        Params::Position { uri, line, character } => {
            let mut s = write_position(uri.as_str(), *line, *character);
            push_str(&mut s, "}");
            s
        },
        Params::References { uri, line, character } => {
            let mut s = write_position(uri.as_str(), *line, *character);
            push_str(&mut s, ",\"context\":{\"includeDeclaration\":true}}");
            s
        },
        Params::Found { uri, line, character, diagnostics } => {
            let mut s = write_document(uri.as_str());
            push_str(&mut s, ",\"range\":{\"start\":");
            push_str(&mut s, write_place(*line, *character).as_str());
            push_str(&mut s, ",\"end\":");
            push_str(&mut s, write_place(*line, *character).as_str());
            push_str(&mut s, "},\"context\":{\"diagnostics\":[");
            push_str(&mut s, write_diagnostics(diagnostics).as_str());
            push_str(&mut s, "]}}");
            s
        },
        Params::Completion { uri, line, character, trigger } => {
            let mut s = write_position(uri.as_str(), *line, *character);
            match trigger {
                Some(c) => {
                    let mut one = String::new();
                    one.push(*c);
                    proof {
                        reveal_strlit("");
                        assert(one@ =~= seq![*c]);
                    }
                    let mut t = copy_str(",\"context\":{\"triggerKind\":2,\"triggerCharacter\":");
                    push_str(&mut t, quote(one.as_str()).as_str());
                    push_str(&mut t, "}}");
                    push_str(&mut s, t.as_str());
                },
                None => {
                    push_str(&mut s, ",\"context\":{\"triggerKind\":1}}");
                },
            }
            s
        },
        Params::Rename { uri, line, character, new_name } => {
            let mut s = write_position(uri.as_str(), *line, *character);
            push_str(&mut s, ",\"newName\":");
            push_str(&mut s, quote(new_name.as_str()).as_str());
            push_str(&mut s, "}");
            s
        },
        Params::Raw(s) => s.clone(),
    }
}

pub open spec fn bool_text(b: bool) -> Seq<char> {
    if b {
        "true"@
    } else {
        "false"@
    }
}

fn write_bool(b: bool) -> (r: String)
    ensures
        r@ == bool_text(b),
{
    if b {
        copy_str("true")
    } else {
        copy_str("false")
    }
}

impl FormattingOptions {
    /// The options as JSON.
    pub open spec fn text(self) -> Seq<char> {
        "{\"tabSize\":"@ + decimal(self.tab_size as int) + ",\"insertSpaces\":"@ + bool_text(self.insert_spaces)
            + ",\"trimTrailingWhitespace\":"@ + bool_text(self.trim_trailing_whitespace) + ",\"insertFinalNewline\":"@
            + bool_text(self.insert_final_newline) + ",\"trimFinalNewlines\":"@ + bool_text(self.trim_final_newlines)
            + "}"@
    }

    /// The options as JSON.
    pub fn to_json(&self) -> (r: String)
        ensures
            r@ == self.text(),
    {
        let mut s = copy_str("{\"tabSize\":");
        push_str(&mut s, to_decimal(self.tab_size).as_str());
        push_str(&mut s, ",\"insertSpaces\":");
        push_str(&mut s, write_bool(self.insert_spaces).as_str());
        push_str(&mut s, ",\"trimTrailingWhitespace\":");
        push_str(&mut s, write_bool(self.trim_trailing_whitespace).as_str());
        push_str(&mut s, ",\"insertFinalNewline\":");
        push_str(&mut s, write_bool(self.insert_final_newline).as_str());
        push_str(&mut s, ",\"trimFinalNewlines\":");
        push_str(&mut s, write_bool(self.trim_final_newlines).as_str());
        push_str(&mut s, "}");
        s
    }
}

/// What an escape stands for.
pub open spec fn unescape(s: Seq<char>) -> Option<Seq<char>>
    decreases s.len(),
{
    if s.len() == 0 {
        Some(Seq::empty())
    } else if s[0] != '\\' {
        match unescape(s.skip(1)) {
            Some(t) => Some(seq![s[0]] + t),
            None => None,
        }
    } else if s.len() == 1 {
        None
    } else if s[1] == 'u' {
        if s.len() < 6 {
            None
        } else {
            match unescape(s.skip(6)) {
                Some(t) => Some(seq![(hex_value(s[4]) * 16 + hex_value(s[5])) as char] + t),
                None => None,
            }
        }
    } else {
        let c = if s[1] == 'b' {
            8u8 as char
        } else if s[1] == 't' {
            '\t'
        } else if s[1] == 'n' {
            '\n'
        } else if s[1] == 'f' {
            12u8 as char
        } else if s[1] == 'r' {
            '\r'
        } else {
            s[1]
        };
        match unescape(s.skip(2)) {
            Some(t) => Some(seq![c] + t),
            None => None,
        }
    }
}

pub open spec fn hex_value(c: char) -> int {
    if '0' <= c <= '9' {
        c as int - '0' as int
    } else {
        c as int - 'a' as int + 10
    }
}

proof fn lemma_unescape(c: char, rest: Seq<char>)
    ensures
        unescape(escape(c) + rest) == match unescape(rest) {
            Some(t) => Some(seq![c] + t),
            None => None,
        },
{
    let s = escape(c) + rest;
    if escape(c).len() == 1 {
        assert(s.skip(1) =~= rest);
    } else if escape(c).len() == 2 {
        assert(s.skip(2) =~= rest);
    } else {
        assert(s.skip(6) =~= rest);
        let n = c as int;
        assert(0 <= n / 16 <= 1 && 0 <= n % 16 < 16 && n == (n / 16) * 16 + n % 16);
        assert(hex_value(hex_digit(n / 16)) == n / 16);
        assert(hex_value(hex_digit(n % 16)) == n % 16);
    }
}

proof fn lemma_reads_back(s: Seq<char>, rest: Seq<char>)
    ensures
        unescape(escaped(s) + rest) == match unescape(rest) {
            Some(t) => Some(s + t),
            None => None,
        },
    decreases s.len(),
{
    if s.len() == 0 {
        assert(escaped(s) + rest =~= rest);
        if let Some(t) = unescape(rest) {
            assert(s + t =~= t);
        }
    } else {
        let tail = escape(s.last()) + rest;
        lemma_unescape(s.last(), rest);
        lemma_reads_back(s.drop_last(), tail);
        assert(escaped(s) + rest =~= escaped(s.drop_last()) + tail);
        if let Some(t) = unescape(rest) {
            assert(s.drop_last() + (seq![s.last()] + t) =~= s + t);
        }
    }
}

/// A text that is written as a JSON string reads back as it was.
pub proof fn law_strings_read_back(s: Seq<char>)
    ensures
        unescape(escaped(s)) == Some(s),
{
    lemma_reads_back(s, Seq::empty());
    assert(escaped(s) + Seq::<char>::empty() =~= escaped(s));
    assert(s + Seq::<char>::empty() =~= s);
}

} // verus!
