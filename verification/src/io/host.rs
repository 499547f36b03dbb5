//! The embedding program as the evaluator sees it. The language has 64-bit
//! floats and functions that the embedder provides; neither is computed here.
//! The evaluator asks the host, and a [`Recorder`] keeps, as ghost state, the
//! list of what was asked and what came back, so that the result of an
//! evaluation can be stated as a function of the replies.

use vstd::prelude::*;
use crate::io::ast::BinaryOp;
use crate::io::runtime::{
    value_views, Arena, ContextView, ExternFn, RefContext, RuntimeValue, ValueView,
};

verus! {

/// What the embedding program provides. Floats cross this boundary as bit
/// patterns. Nothing is promised of any answer: the evaluator is verified for
/// every answer that can come back.
pub trait Host {
    /// The float that a number literal with a decimal point denotes, if any.
    fn float_parse(&mut self, text: &str) -> Option<u64>;

    /// The float nearest to an integer.
    fn float_from_int(&mut self, value: i64) -> u64;

    /// An arithmetic operation on two floats.
    fn float_binary(&mut self, lhs: u64, rhs: u64, op: BinaryOp) -> u64;

    /// Whether two floats compare equal.
    fn float_equal(&mut self, lhs: u64, rhs: u64) -> bool;

    /// A float as text.
    fn float_text(&mut self, value: u64) -> String;

    /// A call of a function of the host, with the evaluated arguments, the
    /// live scopes, which the function may change, and the scope of the
    /// caller.
    fn call_extern(
        &mut self,
        function: ExternFn,
        args: Vec<RuntimeValue>,
        arena: &mut Arena,
        ctx: RefContext,
    ) -> RuntimeValue;
}

/// A question to the host.
pub ghost enum Request {
    FloatParse { text: Seq<char> },
    FloatFromInt { value: i64 },
    FloatBinary { lhs: u64, rhs: u64, op: BinaryOp },
    FloatEqual { lhs: u64, rhs: u64 },
    FloatText { bits: u64 },
    CallExtern {
        function: ExternFn,
        args: Seq<ValueView>,
        arena: Seq<ContextView>,
        ctx: RefContext,
    },
}

/// An answer of the host.
pub ghost enum Reply {
    Parsed(Option<u64>),
    Float(u64),
    Flag(bool),
    Text(Seq<char>),
    /// What a function of the host gives back, and the scopes as it left them.
    Returned { value: ValueView, arena: Seq<ContextView> },
}

/// One question with its answer.
pub ghost struct Exchange {
    pub request: Request,
    pub reply: Reply,
}

/// Whether the log `after` starts with the log `before`.
pub open spec fn follows(before: Seq<Exchange>, after: Seq<Exchange>) -> bool {
    &&& before.len() <= after.len()
    &&& forall|i: int| 0 <= i < before.len() ==> before[i] == after[i]
}

/// A log that starts with a log that starts with a third starts with the
/// third.
pub proof fn lemma_follows_transitive(a: Seq<Exchange>, b: Seq<Exchange>, c: Seq<Exchange>)
    requires
        follows(a, b),
        follows(b, c),
    ensures
        follows(a, c),
{
}

/// A host together with the record of its answers.
pub struct Recorder<H: Host> {
    host: H,
    log: Ghost<Seq<Exchange>>,
}

impl<H: Host> Recorder<H> {
    /// Every exchange with the host so far, oldest first.
    pub closed spec fn log(&self) -> Seq<Exchange> {
        self.log@
    }

    /// A recorder of `host` with nothing recorded yet.
    pub fn new(host: H) -> (out: Self)
        ensures
            out.log() == Seq::<Exchange>::empty(),
            out.inner() == host,
    {
        Recorder { host, log: Ghost(Seq::empty()) }
    }

    /// The host that is recorded.
    pub closed spec fn inner(&self) -> H {
        self.host
    }

    /// Gives the host back.
    pub fn into_host(self) -> (out: H)
        ensures
            out == self.inner(),
    {
        self.host
    }

    /// The host itself.
    pub fn host(&self) -> (out: &H)
        ensures
            *out == self.inner(),
    {
        &self.host
    }

    pub fn float_parse(&mut self, text: &str) -> (out: Option<u64>)
        ensures
            final(self).log() == old(self).log().push(
                Exchange { request: Request::FloatParse { text: text@ }, reply: Reply::Parsed(out) },
            ),
    {
        let out = self.host.float_parse(text);
        proof {
            self.log@ = self.log@.push(
                Exchange { request: Request::FloatParse { text: text@ }, reply: Reply::Parsed(out) },
            );
        }
        out
    }

    pub fn float_from_int(&mut self, value: i64) -> (out: u64)
        ensures
            final(self).log() == old(self).log().push(
                Exchange { request: Request::FloatFromInt { value }, reply: Reply::Float(out) },
            ),
    {
        let out = self.host.float_from_int(value);
        proof {
            self.log@ = self.log@.push(
                Exchange { request: Request::FloatFromInt { value }, reply: Reply::Float(out) },
            );
        }
        out
    }

    pub fn float_binary(&mut self, lhs: u64, rhs: u64, op: BinaryOp) -> (out: u64)
        ensures
            final(self).log() == old(self).log().push(
                Exchange { request: Request::FloatBinary { lhs, rhs, op }, reply: Reply::Float(out) },
            ),
    {
        let out = self.host.float_binary(lhs, rhs, op);
        proof {
            self.log@ = self.log@.push(
                Exchange { request: Request::FloatBinary { lhs, rhs, op }, reply: Reply::Float(out) },
            );
        }
        out
    }

    pub fn float_equal(&mut self, lhs: u64, rhs: u64) -> (out: bool)
        ensures
            final(self).log() == old(self).log().push(
                Exchange { request: Request::FloatEqual { lhs, rhs }, reply: Reply::Flag(out) },
            ),
    {
        let out = self.host.float_equal(lhs, rhs);
        proof {
            self.log@ = self.log@.push(
                Exchange { request: Request::FloatEqual { lhs, rhs }, reply: Reply::Flag(out) },
            );
        }
        out
    }

    pub fn float_text(&mut self, value: u64) -> (out: String)
        ensures
            final(self).log() == old(self).log().push(
                Exchange { request: Request::FloatText { bits: value }, reply: Reply::Text(out@) },
            ),
    {
        let out = self.host.float_text(value);
        proof {
            self.log@ = self.log@.push(
                Exchange { request: Request::FloatText { bits: value }, reply: Reply::Text(out@) },
            );
        }
        out
    }

    pub fn call_extern(
        &mut self,
        function: ExternFn,
        args: Vec<RuntimeValue>,
        arena: &mut Arena,
        ctx: RefContext,
    ) -> (out: RuntimeValue)
        ensures
            final(self).log() == old(self).log().push(
                Exchange {
                    request: Request::CallExtern {
                        function,
                        args: value_views(args@),
                        arena: old(arena)@,
                        ctx,
                    },
                    reply: Reply::Returned { value: out@, arena: final(arena)@ },
                },
            ),
    {
        let ghost request = Request::CallExtern {
            function,
            args: value_views(args@),
            arena: arena@,
            ctx,
        };
        let out = self.host.call_extern(function, args, arena, ctx);
        proof {
            self.log@ = self.log@.push(
                Exchange { request, reply: Reply::Returned { value: out@, arena: arena@ } },
            );
        }
        out
    }
}

} // verus!
