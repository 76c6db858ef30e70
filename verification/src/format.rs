//! What comes of a program that formats the text.
use vstd::prelude::*;
use crate::app::eval::run::{trim, trimmed};
use crate::text::{chars_of, copy_str, push_str};

verus! {

/// How long a formatter may take, in seconds.
pub const EXTERNAL_TIMEOUT: u64 = 5;

/// How often it is looked whether a formatter is done, in milliseconds.
pub const POLL_INTERVAL: u64 = 20;

/// A formatter that ran.
#[derive(Debug)]
pub struct FormatterRun {
    pub command: String,
    pub success: bool,
    /// How it ended, in words.
    pub status: String,
    /// What it printed, where that is a text.
    pub stdout: Option<String>,
    /// What it complained of.
    pub stderr: String,
}

/// The start of every message of a formatter.
pub open spec fn formatter_named(command: Seq<char>) -> Seq<char> {
    "formatter `"@ + command + "`"@
}

impl FormatterRun {
    /// The text it printed. Where it failed, what it complained of, or how it
    /// ended where it said nothing.
    pub open spec fn result(self) -> Result<Seq<char>, Seq<char>> {
        if !self.success {
            let said = trimmed(self.stderr@);
            if said.len() == 0 {
                Err(formatter_named(self.command@) + " exited with "@ + self.status@)
            } else {
                Err(formatter_named(self.command@) + ": "@ + said)
            }
        } else {
            match self.stdout {
                Some(s) => Ok(s@),
                None => Err(formatter_named(self.command@) + " produced non-UTF-8 output"@),
            }
        }
    }

    /// The text it printed, or why there is none.
    pub fn text(&self) -> (r: Result<String, String>)
        ensures
            match (r, self.result()) {
                (Ok(a), Ok(b)) => a@ == b,
                (Err(a), Err(b)) => a@ == b,
                _ => false,
            },
    {
        if !self.success {
            let said = trim(self.stderr.as_str());
            let mut m = name_formatter(self.command.as_str());
            if chars_of(said.as_str()).len() == 0 {
                push_str(&mut m, " exited with ");
                push_str(&mut m, self.status.as_str());
            } else {
                push_str(&mut m, ": ");
                push_str(&mut m, said.as_str());
            }
            return Err(m);
        }
        match &self.stdout {
            Some(s) => Ok(s.clone()),
            None => {
                let mut m = name_formatter(self.command.as_str());
                push_str(&mut m, " produced non-UTF-8 output");
                Err(m)
            },
        }
    }
}

fn name_formatter(command: &str) -> (r: String)
    ensures
        r@ == formatter_named(command@),
{
    let mut m = copy_str("formatter `");
    push_str(&mut m, command);
    push_str(&mut m, "`");
    m
}

/// The message where a formatter takes too long.
pub fn timed_out(command: &str) -> (r: String)
    ensures
        r@ == formatter_named(command@) + " timed out after 5s"@,
{
    let mut m = name_formatter(command);
    push_str(&mut m, " timed out after 5s");
    m
}

} // verus!
