//! Transient messages.
use std::time::Instant;
use vstd::prelude::*;

verus! {

/// A moment of the machine's monotonic clock.
#[verifier::external_type_specification]
#[verifier::external_body]
pub struct ExInstant(Instant);

/// `Instant::now`: the present moment. Nothing is claimed of it.
pub assume_specification [Instant::now]() -> Instant;

/// How serious a message is.
#[derive(Debug, Clone, Copy, PartialEq, Eq, Structural)]
pub enum Level {
    Info,
    Warn,
    Error,
}

/// A message and the moment it was put up.
#[derive(Debug)]
pub struct Status {
    text: String,
    level: Level,
    shown_at: Instant,
}

impl Status {
    /// The level and the text.
    pub closed spec fn said(self) -> (Level, Seq<char>) {
        (self.level, self.text@)
    }

    /// The moment the message was put up.
    pub closed spec fn moment(self) -> Instant {
        self.shown_at
    }

    pub fn info(s: &str) -> (r: Status)
        ensures
            r.said() == (Level::Info, s@),
    {
        Status::with_level(s, Level::Info)
    }

    pub fn warn(s: &str) -> (r: Status)
        ensures
            r.said() == (Level::Warn, s@),
    {
        Status::with_level(s, Level::Warn)
    }

    pub fn error(s: &str) -> (r: Status)
        ensures
            r.said() == (Level::Error, s@),
    {
        Status::with_level(s, Level::Error)
    }

    /// A message with the present moment.
    pub fn with_level(s: &str, level: Level) -> (r: Status)
        ensures
            r.said() == (level, s@),
    {
        Status { text: crate::text::copy_str(s), level, shown_at: Instant::now() }
    }

    pub fn text(&self) -> (r: &str)
        ensures
            r@ == self.said().1,
    {
        self.text.as_str()
    }

    pub fn level(&self) -> (r: Level)
        ensures
            r == self.said().0,
    {
        self.level
    }

    pub fn is_error(&self) -> (r: bool)
        ensures
            r == (self.said().0 is Error),
    {
        self.level == Level::Error
    }

    pub fn shown_at(&self) -> (r: Instant)
        ensures
            r == self.moment(),
    {
        self.shown_at
    }
}

} // verus!
