//! Who is told of the tokens as they come.

use vstd::prelude::*;

verus! {

/// What a sink answers, as a function of the tokens it was told of, each with the
/// number of its stream.
pub type Policy = spec_fn(Seq<(usize, usize)>) -> bool;

/// Something that is told of every token, and says whether it wants more.
pub trait TokenSink: Sized {
    /// The tokens it was told of.
    spec fn told(&self) -> Seq<(usize, usize)>;

    /// Whether it wants more after the tokens it was told of.
    spec fn policy(&self) -> Policy;

    fn on_token(&mut self, stream: usize, token: usize) -> (more: bool)
        ensures
            final(self).told() == old(self).told().push((stream, token)),
            final(self).policy() == old(self).policy(),
            more == (old(self).policy())(final(self).told()),
    ;
}

/// A sink that keeps the tokens and always wants more.
pub struct TokenLog {
    pub tokens: Vec<(usize, usize)>,
}

/// The policy that always wants more.
pub open spec fn always() -> Policy {
    |told: Seq<(usize, usize)>| true
}

impl TokenLog {
    pub fn new() -> (made: TokenLog)
        ensures
            made.tokens@.len() == 0,
            made.told() == Seq::<(usize, usize)>::empty(),
            made.policy() == always(),
    {
        TokenLog { tokens: Vec::new() }
    }
}

impl TokenSink for TokenLog {
    open spec fn told(&self) -> Seq<(usize, usize)> {
        self.tokens@
    }

    open spec fn policy(&self) -> Policy {
        always()
    }

    fn on_token(&mut self, stream: usize, token: usize) -> (more: bool) {
        self.tokens.push((stream, token));
        true
    }
}

/// Tokens of one stream.
pub open spec fn of_stream(stream: usize, tokens: Seq<usize>) -> Seq<(usize, usize)> {
    Seq::new(tokens.len(), |i: int| (stream, tokens[i]))
}

} // verus!
