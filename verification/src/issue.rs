//! A single validation failure: the code of the rule that failed, an optional
//! human-readable message, and an ordered list of named parameters for message
//! interpolation by callers.

use vstd::prelude::*;

verus! {

/// A parameter value attached to a validation issue.
///
/// Parameters carry the data a caller needs to interpolate a message for the
/// failure (a bound, the rejected value rendered as text).
#[derive(Clone, Debug, PartialEq, Eq)]
pub enum ParamValue {
    Uint(u64),
    Text(String),
}

/// Mathematical model of a `ParamValue`.
pub enum ParamView {
    Uint(u64),
    Text(Seq<char>),
}

impl View for ParamValue {
    type V = ParamView;

    closed spec fn view(&self) -> ParamView {
        match self {
            ParamValue::Uint(n) => ParamView::Uint(*n),
            ParamValue::Text(s) => ParamView::Text(s@),
        }
    }
}

/// One recorded rule failure. Immutable once constructed: the engine only
/// ever appends fully built issues to the error tree.
#[derive(Clone, Debug, PartialEq, Eq)]
pub struct ValidationIssue {
    pub code: String,
    pub message: Option<String>,
    pub params: Vec<(String, ParamValue)>,
}

/// Mathematical model of a `ValidationIssue`.
pub struct IssueView {
    pub code: Seq<char>,
    pub message: Option<Seq<char>>,
    pub params: Seq<(Seq<char>, ParamView)>,
}

impl View for ValidationIssue {
    type V = IssueView;

    closed spec fn view(&self) -> IssueView {
        IssueView {
            code: self.code@,
            message: match self.message {
                Some(m) => Some(m@),
                None => None,
            },
            params: self.params@.map_values(|p: (String, ParamValue)| (p.0@, p.1@)),
        }
    }
}

impl ValidationIssue {
    /// Builds an issue for the rule named by `code`, with no message and no
    /// parameters yet.
    pub fn new(code: &str) -> (issue: Self)
        ensures
            issue@.code == code@,
            issue@.message is None,
            issue@.params == Seq::<(Seq<char>, ParamView)>::empty(),
    {
        let issue = ValidationIssue { code: code.to_owned(), message: None, params: Vec::new() };
        proof {
            assert(issue@.params =~= Seq::<(Seq<char>, ParamView)>::empty());
        }
        issue
    }

    /// Replaces the human-readable message.
    pub fn set_message(&mut self, message: &str)
        ensures
            final(self)@.code == old(self)@.code,
            final(self)@.message == Some(message@),
            final(self)@.params == old(self)@.params,
    {
        self.message = Some(message.to_owned());
    }

    /// Appends one named parameter; earlier parameters keep their order.
    pub fn add_param(&mut self, name: &str, value: ParamValue)
        ensures
            final(self)@.code == old(self)@.code,
            final(self)@.message == old(self)@.message,
            final(self)@.params == old(self)@.params.push((name@, value@)),
    {
        let pair = (name.to_owned(), value);
        self.params.push(pair);
        proof {
            assert(self@.params =~= old(self)@.params.push((name@, value@)));
        }
    }
}

} // verus!
