use vstd::prelude::*;

use crate::types::{Error, Token, TokenKind};

verus! {

/// The abstract state of a conversion: the last-seen classification, the
/// running net-value count, and the content of the three stacks.
pub struct YardModel<T> {
    /// The kind of the last processed token, `None` before the first.
    pub last: Option<TokenKind>,
    /// How many values an evaluation of `out` would leave on its stack.
    pub count: usize,
    /// Content of the output stack, bottom first.
    pub out: Seq<T>,
    /// Content of the operator stack, bottom first.
    pub ops: Seq<T>,
    /// Remaining expected arguments of each open function call,
    /// innermost call last.
    pub fns: Seq<usize>,
}

/// The state a freshly built converter has over the given storage content.
pub open spec fn init_model<T>(out: Seq<T>, ops: Seq<T>, fns: Seq<usize>) -> YardModel<T> {
    YardModel { last: None, count: 0, out, ops, fns }
}

/// The token-adjacency grammar: whether a token of kind `after` may
/// follow one of kind `before` (`None` standing for the start of the
/// stream).
pub open spec fn adjacency_ok(before: Option<TokenKind>, after: TokenKind) -> bool {
    match before {
        Some(TokenKind::Function(_)) => after is LeftParen,
        None | Some(
            TokenKind::InfixOperator(_)
            | TokenKind::UnaryOperator
            | TokenKind::LeftParen
            | TokenKind::FnSeparator,
        ) => after is Function || after is LeftParen || after is UnaryOperator || after is Value,
        Some(TokenKind::RightParen | TokenKind::Value) => after is InfixOperator
            || after is RightParen || after is FnSeparator,
    }
}

/// Moving `t` onto the output stack, with its arity bookkeeping.
/// A value raises the net count by one; an infix operator
/// needs two operands and nets one; a unary operator needs one and nets
/// one; a function of arity `n` needs `n`, closes the innermost open
/// call (whose pending-argument counter must be exactly 1), and nets
/// one.  A function with no open call at all, like a paren or a
/// separator, must never reach the output: both are internal
/// consistency faults, not grammar errors.  A value
/// also needs room in the counter itself: with the count at
/// `usize::MAX` the conversion reports `Error::StorageFull`, as for any
/// other exhausted capacity.
pub open spec fn emit_model<T: Token>(m: YardModel<T>, t: T) -> Result<YardModel<T>, Error> {
    match t.kind_spec() {
        TokenKind::Value => if m.count == usize::MAX {
            Err(Error::StorageFull)
        } else {
            Ok(
                YardModel {
                    last: m.last,
                    count: (m.count + 1) as usize,
                    out: m.out.push(t),
                    ops: m.ops,
                    fns: m.fns,
                },
            )
        },
        TokenKind::InfixOperator(_) => if m.count < 2 {
            Err(Error::Malformed)
        } else {
            Ok(
                YardModel {
                    last: m.last,
                    count: (m.count - 1) as usize,
                    out: m.out.push(t),
                    ops: m.ops,
                    fns: m.fns,
                },
            )
        },
        TokenKind::UnaryOperator => if m.count < 1 {
            Err(Error::Malformed)
        } else {
            Ok(
                YardModel {
                    last: m.last,
                    count: m.count,
                    out: m.out.push(t),
                    ops: m.ops,
                    fns: m.fns,
                },
            )
        },
        TokenKind::Function(n) => if n == 0 || m.count < n {
            Err(Error::FunctionLen)
        } else if m.fns.len() == 0 {
            Err(Error::Internal)
        } else if m.fns.last() != 1 {
            Err(Error::FunctionLen)
        } else {
            Ok(
                YardModel {
                    last: m.last,
                    count: (m.count - (n - 1)) as usize,
                    out: m.out.push(t),
                    ops: m.ops,
                    fns: m.fns.drop_last(),
                },
            )
        },
        _ => Err(Error::Internal),
    }
}

/// Which operator-stack entries a popping pass removes.
#[derive(Copy, Clone, Debug)]
pub enum PopRule {
    /// Unary operators, and infix operators whose priority value is at
    /// most the given one (left-associativity: equal priority still
    /// pops).
    UnaryOrInfixUpTo(usize),
    /// Everything until a left paren is on top (the paren stays).
    UntilLeftParen,
    /// Function tokens only, as found right after a group closes.
    TrailingFunction,
}

/// Whether a popping pass governed by `rule` removes an entry of kind `k`.
pub open spec fn pop_rule_accepts(rule: PopRule, k: TokenKind) -> bool {
    match rule {
        PopRule::UnaryOrInfixUpTo(p) => k is UnaryOperator || (k matches TokenKind::InfixOperator(
            q,
        ) && q <= p),
        PopRule::UntilLeftParen => !(k is LeftParen),
        PopRule::TrailingFunction => k is Function,
    }
}

impl PopRule {
    /// Decide at run time what `pop_rule_accepts` says of `self` and `k`.
    pub fn accepts(self, k: TokenKind) -> (b: bool)
        ensures
            b == pop_rule_accepts(self, k),
    {
        match self {
            PopRule::UnaryOrInfixUpTo(p) => match k {
                TokenKind::UnaryOperator => true,
                TokenKind::InfixOperator(q) => q <= p,
                _ => false,
            },
            PopRule::UntilLeftParen => match k {
                TokenKind::LeftParen => false,
                _ => true,
            },
            PopRule::TrailingFunction => match k {
                TokenKind::Function(_) => true,
                _ => false,
            },
        }
    }
}

/// Pop-and-emit operator-stack entries from the top while `rule` accepts
/// them, stopping (and leaving the stack as it stands) at the first entry
/// it does not accept.
pub open spec fn pop_while_model<T: Token>(m: YardModel<T>, rule: PopRule) -> Result<
    YardModel<T>,
    Error,
>
    decreases m.ops.len(),
{
    if m.ops.len() == 0 {
        Ok(m)
    } else {
        let t = m.ops.last();
        if pop_rule_accepts(rule, t.kind_spec()) {
            let m1 = YardModel {
                last: m.last,
                count: m.count,
                out: m.out,
                ops: m.ops.drop_last(),
                fns: m.fns,
            };
            match emit_model(m1, t) {
                Ok(m2) => pop_while_model(m2, rule),
                Err(e) => Err(e),
            }
        } else {
            Ok(m)
        }
    }
}

/// One step of the conversion: what processing token `t` in state `m`
/// yields.  The adjacency grammar is checked first; then the token is
/// dispatched on its kind.
pub open spec fn process_model<T: Token>(m: YardModel<T>, t: T) -> Result<YardModel<T>, Error> {
    let k = t.kind_spec();
    if !adjacency_ok(m.last, k) {
        Err(Error::Malformed)
    } else {
        let m1 = YardModel { last: Some(k), count: m.count, out: m.out, ops: m.ops, fns: m.fns };
        match k {
            TokenKind::Value => emit_model(m1, t),
            TokenKind::Function(n) => Ok(
                YardModel {
                    last: m1.last,
                    count: m1.count,
                    out: m1.out,
                    ops: m1.ops.push(t),
                    fns: m1.fns.push(n),
                },
            ),
            TokenKind::InfixOperator(p) => match pop_while_model(
                m1,
                PopRule::UnaryOrInfixUpTo(p),
            ) {
                Ok(m2) => Ok(
                    YardModel {
                        last: m2.last,
                        count: m2.count,
                        out: m2.out,
                        ops: m2.ops.push(t),
                        fns: m2.fns,
                    },
                ),
                Err(e) => Err(e),
            },
            TokenKind::FnSeparator => if m1.fns.len() == 0 {
                Err(Error::Malformed)
            } else if m1.fns.last() == 0 {
                Err(Error::FunctionLen)
            } else {
                let m2 = YardModel {
                    last: m1.last,
                    count: m1.count,
                    out: m1.out,
                    ops: m1.ops,
                    fns: m1.fns.update(m1.fns.len() - 1, (m1.fns.last() - 1) as usize),
                };
                pop_while_model(m2, PopRule::UntilLeftParen)
            },
            TokenKind::UnaryOperator => Ok(
                YardModel {
                    last: m1.last,
                    count: m1.count,
                    out: m1.out,
                    ops: m1.ops.push(t),
                    fns: m1.fns,
                },
            ),
            TokenKind::LeftParen => Ok(
                YardModel {
                    last: m1.last,
                    count: m1.count,
                    out: m1.out,
                    ops: m1.ops.push(t),
                    fns: m1.fns,
                },
            ),
            TokenKind::RightParen => match pop_while_model(m1, PopRule::UntilLeftParen) {
                Ok(m2) => if m2.ops.len() == 0 || !(m2.ops.last().kind_spec() is LeftParen) {
                    Err(Error::UnbalancedParens)
                } else {
                    let m3 = YardModel {
                        last: m2.last,
                        count: m2.count,
                        out: m2.out,
                        ops: m2.ops.drop_last(),
                        fns: m2.fns,
                    };
                    pop_while_model(m3, PopRule::TrailingFunction)
                },
                Err(e) => Err(e),
            },
        }
    }
}

/// Drain the operator stack completely at end of stream, emitting every
/// entry; a left paren found among them is an unclosed group.
pub open spec fn drain_model<T: Token>(m: YardModel<T>) -> Result<YardModel<T>, Error>
    decreases m.ops.len(),
{
    if m.ops.len() == 0 {
        Ok(m)
    } else if m.ops.last().kind_spec() is LeftParen {
        Err(Error::UnbalancedParens)
    } else {
        let m1 = YardModel {
            last: m.last,
            count: m.count,
            out: m.out,
            ops: m.ops.drop_last(),
            fns: m.fns,
        };
        match emit_model(m1, m.ops.last()) {
            Ok(m2) => drain_model(m2),
            Err(e) => Err(e),
        }
    }
}

/// What finalizing in state `m` yields: the drained output, provided the
/// stream nets exactly one value.
pub open spec fn finish_model<T: Token>(m: YardModel<T>) -> Result<Seq<T>, Error> {
    match drain_model(m) {
        Ok(m1) => if m1.count == 1 {
            Ok(m1.out)
        } else {
            Err(Error::Malformed)
        },
        Err(e) => Err(e),
    }
}

/// Processing a whole stream of tokens, left to right, from state `m`.
pub open spec fn process_all_model<T: Token>(m: YardModel<T>, tokens: Seq<T>) -> Result<
    YardModel<T>,
    Error,
>
    decreases tokens.len(),
{
    if tokens.len() == 0 {
        Ok(m)
    } else {
        match process_all_model(m, tokens.drop_last()) {
            Ok(m1) => process_model(m1, tokens.last()),
            Err(e) => Err(e),
        }
    }
}

/// A complete conversion from empty storage: process every token, then
/// finalize.
pub open spec fn run_model<T: Token>(tokens: Seq<T>) -> Result<Seq<T>, Error> {
    match process_all_model(init_model(Seq::<T>::empty(), Seq::<T>::empty(), Seq::<usize>::empty()), tokens) {
        Ok(m) => finish_model(m),
        Err(e) => Err(e),
    }
}

/// The net number of values that evaluating `s` as a postfix sequence
/// with a value stack leaves on that stack, or `None` if some operator,
/// unary operator or function in it lacks the operands it consumes.
pub open spec fn rpn_depth<T: Token>(s: Seq<T>) -> Option<int>
    decreases s.len(),
{
    if s.len() == 0 {
        Some(0)
    } else {
        match rpn_depth(s.drop_last()) {
            None => None,
            Some(d) => match s.last().kind_spec() {
                TokenKind::Value => Some(d + 1),
                TokenKind::InfixOperator(_) => if d >= 2 {
                    Some(d - 1)
                } else {
                    None
                },
                TokenKind::UnaryOperator => if d >= 1 {
                    Some(d)
                } else {
                    None
                },
                TokenKind::Function(n) => if n >= 1 && d >= n {
                    Some(d - (n - 1))
                } else {
                    None
                },
                _ => None,
            },
        }
    }
}

/// Whether `s` is a well-formed postfix sequence: evaluating it never
/// runs out of operands and leaves exactly one value.
pub open spec fn is_valid_rpn<T: Token>(s: Seq<T>) -> bool {
    rpn_depth(s) == Some(1int)
}

/// The operand tokens of `s`, in the order they stand in it.
pub open spec fn operands_of<T: Token>(s: Seq<T>) -> Seq<T>
    decreases s.len(),
{
    if s.len() == 0 {
        Seq::empty()
    } else if s.last().kind_spec() is Value {
        operands_of(s.drop_last()).push(s.last())
    } else {
        operands_of(s.drop_last())
    }
}

/// Whether no token of `s` is an operand.
spec fn no_operands<T: Token>(s: Seq<T>) -> bool {
    forall|i: int| 0 <= i < s.len() ==> !((#[trigger] s[i]).kind_spec() is Value)
}

/// What every state reachable from a conversion over initially empty
/// storage maintains: the net-value counter equals the value depth of
/// the output produced so far, and no operand ever sits on the operator
/// stack.
spec fn yard_inv<T: Token>(m: YardModel<T>) -> bool {
    &&& rpn_depth(m.out) == Some(m.count as int)
    &&& no_operands(m.ops)
}

proof fn lemma_push_drop_last<T>(s: Seq<T>, t: T)
    ensures
        s.push(t).drop_last() == s,
        s.push(t).last() == t,
{
    assert(s.push(t).drop_last() =~= s);
}

proof fn lemma_emit_inv<T: Token>(m: YardModel<T>, t: T)
    requires
        emit_model(m, t) is Ok,
        rpn_depth(m.out) == Some(m.count as int),
    ensures
        rpn_depth(emit_model(m, t)->Ok_0.out) == Some(emit_model(m, t)->Ok_0.count as int),
        emit_model(m, t)->Ok_0.out == m.out.push(t),
        emit_model(m, t)->Ok_0.ops == m.ops,
        emit_model(m, t)->Ok_0.last == m.last,
        operands_of(emit_model(m, t)->Ok_0.out) == if t.kind_spec() is Value {
            operands_of(m.out).push(t)
        } else {
            operands_of(m.out)
        },
{
    lemma_push_drop_last(m.out, t);
}

proof fn lemma_no_operands_drop_last<T: Token>(s: Seq<T>)
    requires
        no_operands(s),
        s.len() > 0,
    ensures
        no_operands(s.drop_last()),
{
    assert forall|i: int| 0 <= i < s.drop_last().len() implies !(
    (#[trigger] s.drop_last()[i]).kind_spec() is Value) by {
        assert(s.drop_last()[i] == s[i]);
    }
}

proof fn lemma_no_operands_push<T: Token>(s: Seq<T>, t: T)
    requires
        no_operands(s),
        !(t.kind_spec() is Value),
    ensures
        no_operands(s.push(t)),
{
    assert forall|i: int| 0 <= i < s.push(t).len() implies !(
    (#[trigger] s.push(t)[i]).kind_spec() is Value) by {
        if i < s.len() {
            assert(s.push(t)[i] == s[i]);
        } else {
            assert(s.push(t)[i] == t);
        }
    }
}

proof fn lemma_pop_while_inv<T: Token>(m: YardModel<T>, rule: PopRule)
    requires
        yard_inv(m),
        pop_while_model(m, rule) is Ok,
    ensures
        yard_inv(pop_while_model(m, rule)->Ok_0),
        operands_of(pop_while_model(m, rule)->Ok_0.out) == operands_of(m.out),
        pop_while_model(m, rule)->Ok_0.last == m.last,
    decreases m.ops.len(),
{
    if m.ops.len() == 0 {
    } else {
        let t = m.ops.last();
        if pop_rule_accepts(rule, t.kind_spec()) {
            let m1 = YardModel {
                last: m.last,
                count: m.count,
                out: m.out,
                ops: m.ops.drop_last(),
                fns: m.fns,
            };
            assert(!(t.kind_spec() is Value));
            lemma_no_operands_drop_last(m.ops);
            lemma_emit_inv(m1, t);
            let m2 = emit_model(m1, t)->Ok_0;
            lemma_pop_while_inv(m2, rule);
        }
    }
}

proof fn lemma_process_inv<T: Token>(m: YardModel<T>, t: T)
    requires
        yard_inv(m),
        process_model(m, t) is Ok,
    ensures
        yard_inv(process_model(m, t)->Ok_0),
        operands_of(process_model(m, t)->Ok_0.out) == if t.kind_spec() is Value {
            operands_of(m.out).push(t)
        } else {
            operands_of(m.out)
        },
{
    let k = t.kind_spec();
    let m1 = YardModel { last: Some(k), count: m.count, out: m.out, ops: m.ops, fns: m.fns };
    match k {
        TokenKind::Value => {
            lemma_emit_inv(m1, t);
        },
        TokenKind::Function(n) => {
            lemma_no_operands_push(m1.ops, t);
        },
        TokenKind::InfixOperator(p) => {
            lemma_pop_while_inv(m1, PopRule::UnaryOrInfixUpTo(p));
            let m2 = pop_while_model(m1, PopRule::UnaryOrInfixUpTo(p))->Ok_0;
            lemma_no_operands_push(m2.ops, t);
        },
        TokenKind::FnSeparator => {
            let m2 = YardModel {
                last: m1.last,
                count: m1.count,
                out: m1.out,
                ops: m1.ops,
                fns: m1.fns.update(m1.fns.len() - 1, (m1.fns.last() - 1) as usize),
            };
            lemma_pop_while_inv(m2, PopRule::UntilLeftParen);
        },
        TokenKind::UnaryOperator => {
            lemma_no_operands_push(m1.ops, t);
        },
        TokenKind::LeftParen => {
            lemma_no_operands_push(m1.ops, t);
        },
        TokenKind::RightParen => {
            lemma_pop_while_inv(m1, PopRule::UntilLeftParen);
            let m2 = pop_while_model(m1, PopRule::UntilLeftParen)->Ok_0;
            let m3 = YardModel {
                last: m2.last,
                count: m2.count,
                out: m2.out,
                ops: m2.ops.drop_last(),
                fns: m2.fns,
            };
            lemma_no_operands_drop_last(m2.ops);
            lemma_pop_while_inv(m3, PopRule::TrailingFunction);
        },
    }
}

proof fn lemma_drain_inv<T: Token>(m: YardModel<T>)
    requires
        yard_inv(m),
        drain_model(m) is Ok,
    ensures
        yard_inv(drain_model(m)->Ok_0),
        operands_of(drain_model(m)->Ok_0.out) == operands_of(m.out),
    decreases m.ops.len(),
{
    if m.ops.len() == 0 {
    } else {
        let t = m.ops.last();
        let m1 = YardModel {
            last: m.last,
            count: m.count,
            out: m.out,
            ops: m.ops.drop_last(),
            fns: m.fns,
        };
        assert(!(t.kind_spec() is Value));
        lemma_no_operands_drop_last(m.ops);
        lemma_emit_inv(m1, t);
        lemma_drain_inv(emit_model(m1, t)->Ok_0);
    }
}

proof fn lemma_process_all_inv<T: Token>(m: YardModel<T>, tokens: Seq<T>)
    requires
        yard_inv(m),
        process_all_model(m, tokens) is Ok,
    ensures
        yard_inv(process_all_model(m, tokens)->Ok_0),
        operands_of(process_all_model(m, tokens)->Ok_0.out) == operands_of(m.out) + operands_of(
            tokens,
        ),
    decreases tokens.len(),
{
    if tokens.len() == 0 {
        assert(operands_of(m.out) + operands_of(tokens) =~= operands_of(m.out));
    } else {
        lemma_process_all_inv(m, tokens.drop_last());
        let m1 = process_all_model(m, tokens.drop_last())->Ok_0;
        lemma_process_inv(m1, tokens.last());
        if tokens.last().kind_spec() is Value {
            assert((operands_of(m.out) + operands_of(tokens.drop_last())).push(tokens.last())
                =~= operands_of(m.out) + operands_of(tokens.drop_last()).push(tokens.last()));
        }
    }
}

/// Every successful conversion emits a well-formed postfix sequence:
/// replaying the output against a value stack never runs out of operands
/// and leaves exactly one net value on it.
pub proof fn lemma_run_output_valid_rpn<T: Token>(tokens: Seq<T>)
    ensures
        run_model(tokens) is Ok ==> is_valid_rpn(run_model(tokens)->Ok_0),
{
    if run_model(tokens) is Ok {
        let m0 = init_model(Seq::<T>::empty(), Seq::<T>::empty(), Seq::<usize>::empty());
        lemma_process_all_inv(m0, tokens);
        let m1 = process_all_model(m0, tokens)->Ok_0;
        lemma_drain_inv(m1);
    }
}

/// A conversion never reorders operands: the operand tokens of a
/// successful output stand in exactly the order they were fed in; only
/// the operators move.
pub proof fn lemma_run_preserves_operands<T: Token>(tokens: Seq<T>)
    ensures
        run_model(tokens) is Ok ==> operands_of(run_model(tokens)->Ok_0) == operands_of(tokens),
{
    if run_model(tokens) is Ok {
        let m0 = init_model(Seq::<T>::empty(), Seq::<T>::empty(), Seq::<usize>::empty());
        lemma_process_all_inv(m0, tokens);
        let m1 = process_all_model(m0, tokens)->Ok_0;
        lemma_drain_inv(m1);
        assert(operands_of(m0.out) + operands_of(tokens) =~= operands_of(tokens));
    }
}

proof fn lemma_pop_while_stops<T: Token>(m: YardModel<T>, rule: PopRule)
    requires
        pop_while_model(m, rule) is Ok,
    ensures
        ({
            let m2 = pop_while_model(m, rule)->Ok_0;
            m2.ops.len() > 0 ==> !pop_rule_accepts(rule, m2.ops.last().kind_spec())
        }),
    decreases m.ops.len(),
{
    if m.ops.len() == 0 {
    } else {
        let t = m.ops.last();
        if pop_rule_accepts(rule, t.kind_spec()) {
            let m1 = YardModel {
                last: m.last,
                count: m.count,
                out: m.out,
                ops: m.ops.drop_last(),
                fns: m.fns,
            };
            lemma_pop_while_stops(emit_model(m1, t)->Ok_0, rule);
        }
    }
}

/// Left-associativity and precedence in one step: when an infix
/// operator of priority `p` is processed, every unary operator and
/// every infix operator binding at least as tightly (priority value at
/// most `p`, equal included) that stood loose above the last barrier is
/// emitted to the output first, so the entry left directly beneath the
/// new operator is never one of them.
pub proof fn lemma_infix_emits_tighter_first<T: Token>(m: YardModel<T>, t: T)
    requires
        t.kind_spec() is InfixOperator,
        process_model(m, t) is Ok,
    ensures
        ({
            let m2 = process_model(m, t)->Ok_0;
            let p = t.kind_spec()->InfixOperator_0;
            &&& m2.ops.len() > 0
            &&& m2.ops.last() == t
            &&& m2.ops.len() >= 2 ==> !(m2.ops[m2.ops.len() - 2].kind_spec() is UnaryOperator)
                && (m2.ops[m2.ops.len() - 2].kind_spec() matches TokenKind::InfixOperator(q)
                ==> q > p)
        }),
{
    let p = t.kind_spec()->InfixOperator_0;
    let m1 = YardModel {
        last: Some(t.kind_spec()),
        count: m.count,
        out: m.out,
        ops: m.ops,
        fns: m.fns,
    };
    lemma_pop_while_stops(m1, PopRule::UnaryOrInfixUpTo(p));
    let mp = pop_while_model(m1, PopRule::UnaryOrInfixUpTo(p))->Ok_0;
    let m2 = process_model(m, t)->Ok_0;
    assert(m2.ops == mp.ops.push(t));
    if m2.ops.len() >= 2 {
        assert(m2.ops[m2.ops.len() - 2] == mp.ops.last());
    }
}

/// An empty stream is rejected: it nets no value at all.
pub proof fn lemma_empty_input_rejected<T: Token>()
    ensures
        run_model(Seq::<T>::empty()) == Err::<Seq<T>, Error>(Error::Malformed),
{
}

/// A stream of one lone operand converts to itself.
pub proof fn lemma_single_value_accepted<T: Token>(t: T)
    requires
        t.kind_spec() is Value,
    ensures
        run_model(seq![t]) == Ok::<Seq<T>, Error>(seq![t]),
{
    let tokens = seq![t];
    let m0 = init_model(Seq::<T>::empty(), Seq::<T>::empty(), Seq::<usize>::empty());
    assert(tokens.drop_last() =~= Seq::<T>::empty());
    assert(tokens.last() == t);
    assert(process_all_model(m0, Seq::<T>::empty()) == Ok::<YardModel<T>, Error>(m0));
    let m1 = process_model(m0, t)->Ok_0;
    assert(m1.out =~= tokens);
    assert(process_all_model(m0, tokens) == Ok::<YardModel<T>, Error>(m1));
    assert(drain_model(m1) == Ok::<YardModel<T>, Error>(m1));
}

/// Feeding a successful output back through a fresh conversion, at face
/// value, keeps the operand order of the original input whenever that
/// second conversion succeeds.
pub proof fn lemma_rerun_preserves_operands<T: Token>(tokens: Seq<T>)
    ensures
        run_model(tokens) is Ok && run_model(run_model(tokens)->Ok_0) is Ok ==> operands_of(
            run_model(run_model(tokens)->Ok_0)->Ok_0,
        ) == operands_of(tokens),
{
    lemma_run_preserves_operands(tokens);
    if run_model(tokens) is Ok {
        lemma_run_preserves_operands(run_model(tokens)->Ok_0);
    }
}

} // verus!
