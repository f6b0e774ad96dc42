//! Errors produced by the Cardigann engine.
use vstd::prelude::*;

use crate::text::{chars_of, debug_quoted, push_all, push_debug_quoted, push_str, string_of};

verus! {

/// Failures arising while compiling or executing a Cardigann definition.
#[derive(Debug)]
#[non_exhaustive]
pub enum CardigannError {
    /// A selector could not be parsed even after rewriting.
    Selector { selector: String, reason: String },
    /// A `:contains(...)` clause was opened but never closed.
    UnbalancedContains { selector: String },
    /// A template could not be parsed or rendered.
    Template { template: String, reason: String },
    /// A definition referenced a filter this engine does not implement.
    UnknownFilter { name: String },
    /// A filter was called with arguments it cannot use.
    Filter { name: String, reason: String },
    /// A definition is malformed.
    Definition { reason: String },
}

/// The message of an error, given as text.
pub open spec fn message_of(e: SError) -> Seq<char> {
    match e {
        SError::Selector(selector, reason) => "selector "@ + debug_quoted(selector) + " is not valid CSS after rewriting: "@
            + reason,
        SError::UnbalancedContains(selector) => "selector "@ + debug_quoted(selector)
            + " has an unbalanced :contains(...) clause"@,
        SError::Template(template, reason) => "template "@ + debug_quoted(template) + ": "@ + reason,
        SError::UnknownFilter(name) => "unknown filter "@ + debug_quoted(name),
        SError::Filter(name, reason) => "filter "@ + debug_quoted(name) + ": "@ + reason,
        SError::Definition(reason) => "invalid definition: "@ + reason,
    }
}

/// A [`CardigannError`] as text.
pub enum SError {
    Selector(Seq<char>, Seq<char>),
    UnbalancedContains(Seq<char>),
    Template(Seq<char>, Seq<char>),
    UnknownFilter(Seq<char>),
    Filter(Seq<char>, Seq<char>),
    Definition(Seq<char>),
}

impl CardigannError {
    pub open spec fn sview(&self) -> SError {
        match self {
            CardigannError::Selector { selector, reason } => SError::Selector(selector@, reason@),
            CardigannError::UnbalancedContains { selector } => SError::UnbalancedContains(selector@),
            CardigannError::Template { template, reason } => SError::Template(template@, reason@),
            CardigannError::UnknownFilter { name } => SError::UnknownFilter(name@),
            CardigannError::Filter { name, reason } => SError::Filter(name@, reason@),
            CardigannError::Definition { reason } => SError::Definition(reason@),
        }
    }

    /// The error's message.
    pub open spec fn message(&self) -> Seq<char> {
        message_of(self.sview())
    }

    /// The error's message, as its display text.
    pub fn to_string(&self) -> (r: String)
        ensures
            r@ == self.message(),
    {
        let mut out: Vec<char> = Vec::new();
        match self {
            CardigannError::Selector { selector, reason } => {
                push_str(&mut out, "selector ");
                push_debug_quoted(&mut out, &chars_of(selector.as_str()));
                push_str(&mut out, " is not valid CSS after rewriting: ");
                push_all(&mut out, &chars_of(reason.as_str()));
            },
            CardigannError::UnbalancedContains { selector } => {
                push_str(&mut out, "selector ");
                push_debug_quoted(&mut out, &chars_of(selector.as_str()));
                push_str(&mut out, " has an unbalanced :contains(...) clause");
            },
            CardigannError::Template { template, reason } => {
                push_str(&mut out, "template ");
                push_debug_quoted(&mut out, &chars_of(template.as_str()));
                push_str(&mut out, ": ");
                push_all(&mut out, &chars_of(reason.as_str()));
            },
            CardigannError::UnknownFilter { name } => {
                push_str(&mut out, "unknown filter ");
                push_debug_quoted(&mut out, &chars_of(name.as_str()));
            },
            CardigannError::Filter { name, reason } => {
                push_str(&mut out, "filter ");
                push_debug_quoted(&mut out, &chars_of(name.as_str()));
                push_str(&mut out, ": ");
                push_all(&mut out, &chars_of(reason.as_str()));
            },
            CardigannError::Definition { reason } => {
                push_str(&mut out, "invalid definition: ");
                push_all(&mut out, &chars_of(reason.as_str()));
            },
        }
        proof {
            assert(Seq::<char>::empty() + "selector "@ =~= "selector "@);
            assert(Seq::<char>::empty() + "template "@ =~= "template "@);
            assert(Seq::<char>::empty() + "unknown filter "@ =~= "unknown filter "@);
            assert(Seq::<char>::empty() + "filter "@ =~= "filter "@);
            assert(Seq::<char>::empty() + "invalid definition: "@ =~= "invalid definition: "@);
        }
        string_of(out.as_slice())
    }
}

} // verus!
