pub mod grammar;
mod impls;
pub mod model;
mod types;

use vstd::prelude::*;

use model::{adjacency_ok, drain_model, emit_model, finish_model, init_model, pop_while_model, process_model, PopRule, YardModel};
pub use impls::{BoundedStack, TaggedToken};
pub use types::{Error, Stack, Token, TokenKind};

verus! {

/// An incremental infix-to-postfix converter: the shunting-yard
/// algorithm, generalized to unary operators and n-ary functions, over
/// caller-supplied stack storage.
pub struct ShuntingYard<Out, Op, Fun> {
    /// The kind of the last processed token.
    last_token_kind: Option<TokenKind>,
    /// The running count of how many items would be on the runtime stack
    /// if the output produced so far were evaluated now.  At the end this
    /// must be exactly 1 for the expression to be valid.
    final_value_count: usize,
    outstack: Out,
    opstack: Op,
    fnstack: Fun,
}

impl<T, Out, Op, Fun> ShuntingYard<Out, Op, Fun> where
    Out: Stack<Item = T>,
    Op: Stack<Item = T>,
    Fun: Stack<Item = usize>,
    T: Token,
 {
    /// The abstract state this converter is in.
    pub closed spec fn model(&self) -> YardModel<T> {
        YardModel {
            last: self.last_token_kind,
            count: self.final_value_count,
            out: self.outstack.contents(),
            ops: self.opstack.contents(),
            fns: self.fnstack.contents(),
        }
    }

    /// Whether every stack of this converter takes pushes without fail.
    pub closed spec fn unbounded_storage(&self) -> bool {
        self.outstack.never_full() && self.opstack.never_full() && self.fnstack.never_full()
    }

    /// Build a converter over the given stacks, which may already hold
    /// content of the caller's.
    pub fn new_with_storage(outstack: Out, opstack: Op, fnstack: Fun) -> (yard: Self)
        ensures
            yard.model() == init_model(
                outstack.contents(),
                opstack.contents(),
                fnstack.contents(),
            ),
            yard.unbounded_storage() == (outstack.never_full() && opstack.never_full()
                && fnstack.never_full()),
    {
        Self { last_token_kind: None, final_value_count: 0, outstack, opstack, fnstack }
    }

    /// Check whether a token of kind `after` may follow one of kind
    /// `before` under the adjacency grammar.
    fn check_adjacency(before: Option<TokenKind>, after: TokenKind) -> (r: Result<(), Error>)
        ensures
            r is Ok <==> adjacency_ok(before, after),
            r is Err ==> r == Err::<(), Error>(Error::Malformed),
    {
        let is_okay = match before {
            Some(TokenKind::Function(_)) => matches!(after, TokenKind::LeftParen),
            None | Some(
                TokenKind::InfixOperator(_)
                | TokenKind::UnaryOperator
                | TokenKind::LeftParen
                | TokenKind::FnSeparator,
            ) => matches!(
                after,
                TokenKind::Function(_) | TokenKind::LeftParen | TokenKind::UnaryOperator
                    | TokenKind::Value
            ),
            Some(TokenKind::RightParen | TokenKind::Value) => matches!(
                after,
                TokenKind::InfixOperator(_) | TokenKind::RightParen | TokenKind::FnSeparator
            ),
        };
        if is_okay {
            Ok(())
        } else {
            Err(Error::Malformed)
        }
    }

    /// Push `v` to the output stack while tracking the net value count,
    /// exactly as `emit_model` prescribes; `Error::StorageFull` may also
    /// arise from the backing storage, but with storage that is never
    /// full the error equals the model's exactly.  The operator stack is
    /// never touched; on an error the output stack and the last-seen
    /// kind keep their old values, and the arity stack is popped only
    /// where `emit_model` pops it.
    fn push_to_output_stack(&mut self, v: T) -> (r: Result<(), Error>)
        ensures
            r is Ok ==> emit_model(old(self).model(), v) == Ok::<YardModel<T>, Error>(
                final(self).model(),
            ),
            r matches Err(e) ==> e == Error::StorageFull || emit_model(old(self).model(), v)
                == Err::<YardModel<T>, Error>(e),
            old(self).unbounded_storage() ==> (r matches Err(e) ==> emit_model(
                old(self).model(),
                v,
            ) == Err::<YardModel<T>, Error>(e)),
            old(self).unbounded_storage() ==> final(self).unbounded_storage(),
            old(self).unbounded_storage() && emit_model(old(self).model(), v) is Ok ==> r is Ok,
            final(self).model().ops == old(self).model().ops,
            r is Err ==> final(self).model().out == old(self).model().out
                && final(self).model().last == old(self).model().last,
            r is Err && !(v.kind_spec() is Function) ==> final(self).model().fns == old(
                self,
            ).model().fns,
            r is Err && v.kind_spec() is Function && (v.kind_spec()->Function_0 == 0 || old(
                self,
            ).model().count < v.kind_spec()->Function_0) ==> final(self).model().fns == old(
                self,
            ).model().fns,
            r is Err && v.kind_spec() is Function && v.kind_spec()->Function_0 >= 1 && old(
                self,
            ).model().count >= v.kind_spec()->Function_0 && old(self).model().fns.len() > 0
                ==> final(self).model().fns == old(self).model().fns.drop_last(),
    {
        let kind = v.kind();
        match kind {
            TokenKind::Value => {
                if self.final_value_count == usize::MAX {
                    return Err(Error::StorageFull);
                }
                self.final_value_count = self.final_value_count + 1;
            },
            TokenKind::InfixOperator(_) => {
                if self.final_value_count < 2 {
                    return Err(Error::Malformed);
                }
                self.final_value_count = self.final_value_count - 1;
            },
            TokenKind::UnaryOperator => {
                if self.final_value_count < 1 {
                    return Err(Error::Malformed);
                }
            },
            TokenKind::Function(n) => {
                if n == 0 || self.final_value_count < n {
                    return Err(Error::FunctionLen);
                }
                match self.fnstack.pop() {
                    None => {
                        return Err(Error::Internal);
                    },
                    Some(pending) => {
                        if pending != 1 {
                            return Err(Error::FunctionLen);
                        }
                    },
                }
                self.final_value_count = self.final_value_count - (n - 1);
            },
            _ => {
                return Err(Error::Internal);
            },
        }
        match self.outstack.push(v) {
            Ok(()) => Ok(()),
            Err(e) => Err(e),
        }
    }

    /// Pop-and-emit operator-stack entries while `rule` accepts them,
    /// putting the first entry it does not accept back on top.  An
    /// emission error is returned at once, and with storage that is
    /// never full it equals the model's exactly; on any error the
    /// entries not yet popped still stand on the operator stack, in
    /// place.
    fn pop_operators_while(&mut self, rule: PopRule) -> (r: Result<(), Error>)
        ensures
            r is Ok ==> pop_while_model(old(self).model(), rule) == Ok::<YardModel<T>, Error>(
                final(self).model(),
            ),
            r matches Err(e) ==> e == Error::StorageFull || pop_while_model(
                old(self).model(),
                rule,
            ) == Err::<YardModel<T>, Error>(e),
            old(self).unbounded_storage() ==> (r matches Err(e) ==> pop_while_model(
                old(self).model(),
                rule,
            ) == Err::<YardModel<T>, Error>(e)),
            old(self).unbounded_storage() ==> final(self).unbounded_storage(),
            old(self).unbounded_storage() && pop_while_model(old(self).model(), rule) is Ok
                ==> r is Ok,
            r is Err ==> final(self).model().ops.len() <= old(self).model().ops.len()
                && final(self).model().ops == old(self).model().ops.take(
                final(self).model().ops.len() as int,
            ),
        decreases self.opstack.contents().len(),
    {
        match self.opstack.pop() {
            None => Ok(()),
            Some(popped) => {
                if rule.accepts(popped.kind()) {
                    match self.push_to_output_stack(popped) {
                        Ok(()) => {
                            let ghost mid_ops = self.opstack.contents();
                            let inner = self.pop_operators_while(rule);
                            proof {
                                if inner is Err {
                                    let cur = self.opstack.contents();
                                    assert(mid_ops =~= old(self).model().ops.take(
                                        old(self).model().ops.len() - 1,
                                    ));
                                    assert(mid_ops.take(cur.len() as int) =~= old(
                                        self,
                                    ).model().ops.take(cur.len() as int));
                                }
                            }
                            inner
                        },
                        Err(e) => {
                            proof {
                                assert(old(self).model().ops.drop_last() =~= old(
                                    self,
                                ).model().ops.take(old(self).model().ops.len() - 1));
                            }
                            Err(e)
                        },
                    }
                } else {
                    proof {
                        assert(old(self).model().ops.drop_last().push(popped) =~= old(
                            self,
                        ).model().ops);
                        assert(old(self).model().ops.drop_last() =~= old(self).model().ops.take(
                            old(self).model().ops.len() - 1,
                        ));
                    }
                    match self.opstack.push(popped) {
                        Ok(()) => Ok(()),
                        Err(e) => Err(e),
                    }
                }
            },
        }
    }

    /// Process one token of the stream: check the adjacency grammar,
    /// record the token's kind, and dispatch on it, exactly as
    /// `process_model` prescribes.  A token the adjacency grammar
    /// rejects fails with `Error::Malformed` and leaves the state
    /// untouched.  `Error::StorageFull` may also arise from the backing
    /// storage; with storage that is never full the result, state and
    /// error equal the model's exactly.  On any other error no partial
    /// state is rolled back, and the conversion must be discarded.
    pub fn process(&mut self, token: T) -> (r: Result<(), Error>)
        ensures
            r is Ok ==> process_model(old(self).model(), token) == Ok::<YardModel<T>, Error>(
                final(self).model(),
            ),
            r matches Err(e) ==> e == Error::StorageFull || process_model(
                old(self).model(),
                token,
            ) == Err::<YardModel<T>, Error>(e),
            old(self).unbounded_storage() ==> (r matches Err(e) ==> process_model(
                old(self).model(),
                token,
            ) == Err::<YardModel<T>, Error>(e)),
            old(self).unbounded_storage() ==> final(self).unbounded_storage(),
            old(self).unbounded_storage() && process_model(old(self).model(), token) is Ok
                ==> r is Ok,
            !adjacency_ok(old(self).model().last, token.kind_spec()) ==> r == Err::<(), Error>(
                Error::Malformed,
            ) && final(self).model() == old(self).model(),
    {
        let kind = token.kind();
        match Self::check_adjacency(self.last_token_kind, kind) {
            Ok(()) => {},
            Err(e) => {
                return Err(e);
            },
        }
        self.last_token_kind = Some(kind);

        match kind {
            TokenKind::Value => self.push_to_output_stack(token),
            TokenKind::Function(n) => {
                match self.opstack.push(token) {
                    Ok(()) => {},
                    Err(e) => {
                        return Err(e);
                    },
                }
                match self.fnstack.push(n) {
                    Ok(()) => Ok(()),
                    Err(e) => Err(e),
                }
            },
            TokenKind::InfixOperator(o1_p) => {
                match self.pop_operators_while(PopRule::UnaryOrInfixUpTo(o1_p)) {
                    Ok(()) => {},
                    Err(e) => {
                        return Err(e);
                    },
                }
                match self.opstack.push(token) {
                    Ok(()) => Ok(()),
                    Err(e) => Err(e),
                }
            },
            TokenKind::FnSeparator => {
                match self.fnstack.pop() {
                    None => {
                        return Err(Error::Malformed);
                    },
                    Some(n) => {
                        if n == 0 {
                            return Err(Error::FunctionLen);
                        }
                        proof {
                            assert(old(self).model().fns.drop_last().push((n - 1) as usize)
                                =~= old(self).model().fns.update(
                                old(self).model().fns.len() - 1,
                                (n - 1) as usize,
                            ));
                        }
                        match self.fnstack.push(n - 1) {
                            Ok(()) => {},
                            Err(e) => {
                                return Err(e);
                            },
                        }
                    },
                }
                self.pop_operators_while(PopRule::UntilLeftParen)
            },
            TokenKind::UnaryOperator => {
                match self.opstack.push(token) {
                    Ok(()) => Ok(()),
                    Err(e) => Err(e),
                }
            },
            TokenKind::LeftParen => {
                match self.opstack.push(token) {
                    Ok(()) => Ok(()),
                    Err(e) => Err(e),
                }
            },
            TokenKind::RightParen => {
                match self.pop_operators_while(PopRule::UntilLeftParen) {
                    Ok(()) => {},
                    Err(e) => {
                        return Err(e);
                    },
                }
                let closing = self.opstack.pop();
                let closed_group = match &closing {
                    Some(v) => matches!(v.kind(), TokenKind::LeftParen),
                    None => false,
                };
                if !closed_group {
                    return Err(Error::UnbalancedParens);
                }
                self.pop_operators_while(PopRule::TrailingFunction)
            },
        }
    }

    /// Drain the operator stack completely, emitting every entry; a left
    /// paren found among them is an unclosed group.  With storage that
    /// is never full the error equals the model's exactly.
    fn drain_operators(&mut self) -> (r: Result<(), Error>)
        ensures
            r is Ok ==> drain_model(old(self).model()) == Ok::<YardModel<T>, Error>(
                final(self).model(),
            ),
            r matches Err(e) ==> e == Error::StorageFull || drain_model(old(self).model())
                == Err::<YardModel<T>, Error>(e),
            old(self).unbounded_storage() ==> (r matches Err(e) ==> drain_model(
                old(self).model(),
            ) == Err::<YardModel<T>, Error>(e)),
            old(self).unbounded_storage() ==> final(self).unbounded_storage(),
            old(self).unbounded_storage() && drain_model(old(self).model()) is Ok ==> r is Ok,
        decreases self.opstack.contents().len(),
    {
        match self.opstack.pop() {
            None => Ok(()),
            Some(v) => {
                if matches!(v.kind(), TokenKind::LeftParen) {
                    Err(Error::UnbalancedParens)
                } else {
                    match self.push_to_output_stack(v) {
                        Ok(()) => self.drain_operators(),
                        Err(e) => Err(e),
                    }
                }
            },
        }
    }

    /// Mark the input stream as complete: drain the operator stack and,
    /// provided the stream nets exactly one value, hand back the output
    /// stack, exactly as `finish_model` prescribes; `Error::StorageFull`
    /// may also arise from the backing storage, but with storage that is
    /// never full both the outcome and the error equal the model's
    /// exactly.
    pub fn finish(self) -> (r: Result<Out, Error>)
        ensures
            r matches Ok(out) ==> finish_model(self.model()) == Ok::<Seq<T>, Error>(
                out.contents(),
            ),
            r matches Err(e) ==> e == Error::StorageFull || finish_model(self.model())
                == Err::<Seq<T>, Error>(e),
            self.unbounded_storage() ==> (r matches Err(e) ==> finish_model(self.model())
                == Err::<Seq<T>, Error>(e)),
            self.unbounded_storage() && finish_model(self.model()) is Ok ==> r is Ok,
    {
        let mut this = self;
        match this.drain_operators() {
            Ok(()) => {},
            Err(e) => {
                return Err(e);
            },
        }
        if this.final_value_count != 1 {
            return Err(Error::Malformed);
        }
        Ok(this.outstack)
    }
}

} // verus!
