//! Errors carried through the build pipeline.
//!
//! An error is a chain of context messages, outermost first, mirroring how
//! each call boundary wraps the failure it saw with what it was doing.

use vstd::prelude::*;

verus! {

/// A build error: a causal chain of messages, outermost context first.
#[derive(Debug, PartialEq)]
pub struct Error {
    messages: Vec<String>,
}

impl Error {
    /// A fresh error with a single root message.
    pub fn new(msg: String) -> (r: Error)
        ensures
            r@ =~= seq![msg@],
    {
        Error { messages: vec![msg] }
    }

    /// Wrap this error with an outer context message.
    pub fn context(self, msg: String) -> (r: Error)
        ensures
            r@ =~= seq![msg@] + self@,
    {
        let mut messages = self.messages;
        messages.insert(0, msg);
        Error { messages }
    }

    /// The chain of messages, outermost first.
    pub fn chain(&self) -> (r: &Vec<String>)
        ensures
            r@.map_values(|m: String| m@) == self@,
    {
        &self.messages
    }

    /// Render the chain in the shape `msg`, then a `Caused by:` block with
    /// one line per inner message.
    pub fn describe(&self) -> (r: String)
        requires
            self@.len() > 0,
        ensures
            r@ == spec_describe(self@),
    {
        let mut out = String::new();
        out.append(self.messages[0].as_str());
        if self.messages.len() > 1 {
            out.append("\n\nCaused by:");
            let mut i: usize = 1;
            proof {
                assert(out@ =~= self@[0] + "\n\nCaused by:"@ + caused_by(self@, 1));
            }
            while i < self.messages.len()
                invariant
                    1 <= i <= self.messages@.len(),
                    self@.len() == self.messages@.len() && self@.len() > 1,
                    self@ == self.messages@.map_values(|m: String| m@),
                    out@ == self@[0] + "\n\nCaused by:"@ + caused_by(self@, i as int),
                decreases self.messages@.len() - i,
            {
                out.append("\n    ");
                out.append(self.messages[i].as_str());
                proof {
                    assert(self.messages@[i as int]@ == self@[i as int]);
                    assert(out@ =~= self@[0] + "\n\nCaused by:"@ + caused_by(self@, i + 1));
                }
                i = i + 1;
            }
        }
        out
    }
}

/// The lines of the `Caused by:` block for the inner messages before `i`.
pub open spec fn caused_by(chain: Seq<Seq<char>>, i: int) -> Seq<char>
    decreases i,
        when 1 <= i <= chain.len()
{
    if i <= 1 {
        Seq::empty()
    } else {
        caused_by(chain, i - 1) + "\n    "@ + chain[i - 1]
    }
}

/// How an error chain reads: the outermost message, and where inner
/// messages follow, a `Caused by:` block listing each on its own line.
pub open spec fn spec_describe(chain: Seq<Seq<char>>) -> Seq<char>
    recommends
        chain.len() > 0,
{
    if chain.len() <= 1 {
        chain[0]
    } else {
        chain[0] + "\n\nCaused by:"@ + caused_by(chain, chain.len() as int)
    }
}

impl View for Error {
    type V = Seq<Seq<char>>;

    closed spec fn view(&self) -> Seq<Seq<char>> {
        self.messages@.map_values(|m: String| m@)
    }
}

} // verus!
