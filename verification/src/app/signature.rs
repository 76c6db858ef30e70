//! The popup that shows how a function is called.
use vstd::prelude::*;
use crate::lsp::{Signature, SignatureHelp};

verus! {

/// The open popup.
#[derive(Debug)]
pub struct SignatureState {
    /// What the server last answered.
    pub help: SignatureHelp,
}

/// How a request for signatures was started.
#[derive(Debug, Clone, Copy, PartialEq, Eq, Structural)]
pub enum SignatureTrigger {
    /// No key was typed for it.
    Invoked,
    /// A character was typed that the server has named as one that asks for
    /// signatures.
    TriggerCharacter(char),
    /// The text changed while the popup was open.
    ContentChange(Option<char>),
}

impl SignatureState {
    /// The signature that is shown.
    pub open spec fn shown(self) -> Option<Signature> {
        if self.help.active_signature < self.help.signatures@.len() {
            Some(self.help.signatures@[self.help.active_signature as int])
        } else {
            None
        }
    }

    /// The signature that is shown.
    pub fn current(&self) -> (r: Option<&Signature>)
        ensures
            match (r, self.shown()) {
                (Some(a), Some(b)) => *a == b,
                (None, None) => true,
                _ => false,
            },
    {
        if self.help.active_signature < self.help.signatures.len() {
            Some(&self.help.signatures[self.help.active_signature])
        } else {
            None
        }
    }

    /// The parameter that is typed: the signature's own word on it comes
    /// before that of the answer.
    pub fn active_parameter(&self) -> (r: Option<usize>)
        ensures
            r == match self.shown() {
                None => None,
                Some(s) => if s.active_parameter is Some {
                    s.active_parameter
                } else {
                    self.help.active_parameter
                },
            },
    {
        match self.current() {
            None => None,
            Some(s) => {
                if s.active_parameter.is_some() {
                    s.active_parameter
                } else {
                    self.help.active_parameter
                }
            },
        }
    }
}

} // verus!
