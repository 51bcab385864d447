use vstd::prelude::*;

use crate::model::{
    adjacency_ok, drain_model, emit_model, init_model, pop_rule_accepts, pop_while_model,
    process_all_model, process_model, run_model, PopRule, YardModel,
};
use crate::types::{Error, Token, TokenKind};

verus! {

/// A well-formed expression over tokens of type `T`: the language the
/// conversion is meant to accept.
pub enum Expr<T> {
    /// A lone operand.
    Leaf(T),
    /// A prefix unary operator applied to an expression.
    Unary(T, Box<Expr<T>>),
    /// Two expressions joined by an infix operator.
    Infix(Box<Expr<T>>, T, Box<Expr<T>>),
    /// An expression wrapped in a pair of parentheses.
    Group(T, Box<Expr<T>>, T),
    /// A function applied to a parenthesized, separated argument list.
    Call(T, T, Box<Args<T>>, T),
}

/// One or more argument expressions, each but the last followed by a
/// separator token.
pub enum Args<T> {
    /// The last argument.
    Last(Expr<T>),
    /// An argument, the separator after it, and the rest.
    More(Expr<T>, T, Box<Args<T>>),
}

/// How many arguments `a` lists.
pub open spec fn args_count<T>(a: Args<T>) -> int
    decreases a,
{
    match a {
        Args::Last(_) => 1,
        Args::More(_, _, rest) => 1 + args_count(*rest),
    }
}

/// Whether every token of `e` carries the classification its position
/// calls for, and every function's declared arity matches its argument
/// count.
pub open spec fn expr_wf<T: Token>(e: Expr<T>) -> bool
    decreases e,
{
    match e {
        Expr::Leaf(t) => t.kind_spec() is Value,
        Expr::Unary(u, sub) => u.kind_spec() is UnaryOperator && expr_wf(*sub),
        Expr::Infix(l, op, r) => op.kind_spec() is InfixOperator && expr_wf(*l) && expr_wf(*r),
        Expr::Group(lp, sub, rp) => lp.kind_spec() is LeftParen && rp.kind_spec() is RightParen
            && expr_wf(*sub),
        Expr::Call(f, lp, args, rp) => {
            &&& f.kind_spec() matches TokenKind::Function(n) && n as int == args_count(*args)
            &&& lp.kind_spec() is LeftParen
            &&& rp.kind_spec() is RightParen
            &&& args_wf(*args)
        },
    }
}

/// Whether every argument of `a` is well formed and every separator in
/// it is a separator token.
pub open spec fn args_wf<T: Token>(a: Args<T>) -> bool
    decreases a,
{
    match a {
        Args::Last(e) => expr_wf(e),
        Args::More(e, sep, rest) => expr_wf(e) && sep.kind_spec() is FnSeparator && args_wf(*rest),
    }
}

/// The token stream `e` flattens to, left to right.
pub open spec fn expr_tokens<T>(e: Expr<T>) -> Seq<T>
    decreases e,
{
    match e {
        Expr::Leaf(t) => seq![t],
        Expr::Unary(u, sub) => seq![u] + expr_tokens(*sub),
        Expr::Infix(l, op, r) => expr_tokens(*l) + seq![op] + expr_tokens(*r),
        Expr::Group(lp, sub, rp) => seq![lp] + expr_tokens(*sub) + seq![rp],
        Expr::Call(f, lp, args, rp) => seq![f, lp] + args_tokens(*args) + seq![rp],
    }
}

/// The token stream `a` flattens to, left to right.
pub open spec fn args_tokens<T>(a: Args<T>) -> Seq<T>
    decreases a,
{
    match a {
        Args::Last(e) => expr_tokens(e),
        Args::More(e, sep, rest) => expr_tokens(e) + seq![sep] + args_tokens(*rest),
    }
}

/// Whether the adjacency grammar lets an expression begin after a last
/// token of this kind.
spec fn expr_may_start(last: Option<TokenKind>) -> bool {
    match last {
        None => true,
        Some(k) => k is InfixOperator || k is UnaryOperator || k is LeftParen
            || k is FnSeparator,
    }
}

/// Whether entries of this kind sit loose on top of the operator stack,
/// removable by precedence popping.
spec fn run_kind(k: TokenKind) -> bool {
    k is UnaryOperator || k is InfixOperator
}

/// The length of the maximal top run of loose operator entries.
spec fn run_len<T: Token>(ops: Seq<T>) -> int
    decreases ops.len(),
{
    if ops.len() == 0 {
        0
    } else if run_kind(ops.last().kind_spec()) {
        1 + run_len(ops.drop_last())
    } else {
        0
    }
}

/// The length of the operator stack below its top run.
spec fn base_len<T: Token>(ops: Seq<T>) -> int {
    ops.len() - run_len(ops)
}

/// The accounting a state satisfies at the start of an expression: the
/// net value count covers exactly the operand each pending infix
/// operator still waits for, one per open group level, together with
/// the arguments parked so far in each open call.
spec fn good_start<T: Token>(ops: Seq<T>, fns: Seq<usize>, c: int) -> bool
    decreases ops.len(),
{
    if ops.len() == 0 {
        c == 0 && fns.len() == 0
    } else {
        match ops.last().kind_spec() {
            TokenKind::InfixOperator(_) => c >= 1 && good_start(ops.drop_last(), fns, c - 1),
            TokenKind::UnaryOperator => good_start(ops.drop_last(), fns, c),
            TokenKind::LeftParen => {
                let below = ops.drop_last();
                if below.len() > 0 && below.last().kind_spec() is Function {
                    let n = below.last().kind_spec()->Function_0;
                    &&& fns.len() > 0
                    &&& 1 <= fns.last() <= n
                    &&& c >= n - fns.last()
                    &&& good_start(below.drop_last(), fns.drop_last(), c - (n - fns.last()))
                } else {
                    good_start(below, fns, c)
                }
            },
            _ => false,
        }
    }
}

proof fn lemma_process_all_single<T: Token>(m: YardModel<T>, t: T)
    ensures
        process_all_model(m, seq![t]) == process_model(m, t),
{
    let s = seq![t];
    assert(s.drop_last() =~= Seq::<T>::empty());
    assert(process_all_model(m, Seq::<T>::empty()) == Ok::<YardModel<T>, Error>(m));
    assert(s.last() == t);
}

proof fn lemma_process_all_append<T: Token>(m: YardModel<T>, s1: Seq<T>, s2: Seq<T>)
    ensures
        process_all_model(m, s1 + s2) == (match process_all_model(m, s1) {
            Ok(m1) => process_all_model(m1, s2),
            Err(e) => Err(e),
        }),
    decreases s2.len(),
{
    if s2.len() == 0 {
        assert(s1 + s2 =~= s1);
    } else {
        assert((s1 + s2).drop_last() =~= s1 + s2.drop_last());
        assert((s1 + s2).last() == s2.last());
        lemma_process_all_append(m, s1, s2.drop_last());
    }
}

/// Every entry above the base of the operator stack is a loose operator
/// entry, and the run is bounded by the stack.
proof fn lemma_run_region<T: Token>(ops: Seq<T>)
    ensures
        0 <= run_len(ops) <= ops.len(),
        forall|i: int|
            base_len(ops) <= i < ops.len() ==> run_kind((#[trigger] ops[i]).kind_spec()),
    decreases ops.len(),
{
    if ops.len() == 0 {
    } else if run_kind(ops.last().kind_spec()) {
        lemma_run_region(ops.drop_last());
        assert forall|i: int|
            base_len(ops) <= i < ops.len() implies run_kind(
            (#[trigger] ops[i]).kind_spec()) by {
            if i < ops.len() - 1 {
                assert(ops[i] == ops.drop_last()[i]);
            }
        }
    }
}

/// If everything of `ops` at and above index `b` is a loose operator
/// entry and the entry just below `b` (if any) is not, the top run is
/// exactly what stands at and above `b`.
proof fn lemma_run_len_at<T: Token>(ops: Seq<T>, b: int)
    requires
        0 <= b <= ops.len(),
        forall|i: int| b <= i < ops.len() ==> run_kind((#[trigger] ops[i]).kind_spec()),
        b > 0 ==> !run_kind(ops[b - 1].kind_spec()),
    ensures
        run_len(ops) == ops.len() - b,
    decreases ops.len() - b,
{
    if ops.len() == b {
        if b > 0 {
            assert(ops.last() == ops[b - 1]);
        }
    } else {
        assert(run_kind(ops.last().kind_spec()));
        assert forall|i: int| b <= i < ops.drop_last().len() implies run_kind(
            (#[trigger] ops.drop_last()[i]).kind_spec()) by {
            assert(ops.drop_last()[i] == ops[i]);
        }
        if b > 0 {
            assert(ops.drop_last()[b - 1] == ops[b - 1]);
        }
        lemma_run_len_at(ops.drop_last(), b);
    }
}

/// A popping pass from a state just after a finished expression keeps
/// the accounting: it emits loose entries only, each with the operands
/// it needs available, never looks below the base, and for
/// `UntilLeftParen` clears the whole run.
proof fn lemma_pop_run<T: Token>(m: YardModel<T>, rule: PopRule, fns0: Seq<usize>)
    requires
        m.count >= 1,
        good_start(m.ops, fns0, m.count - 1),
    ensures
        pop_while_model(m, rule) is Ok,
        ({
            let m2 = pop_while_model(m, rule)->Ok_0;
            &&& m2.count >= 1
            &&& good_start(m2.ops, fns0, m2.count - 1)
            &&& m2.fns == m.fns
            &&& m2.last == m.last
            &&& m2.count <= m.count
            &&& m2.ops.len() <= m.ops.len()
            &&& m2.ops == m.ops.take(m2.ops.len() as int)
            &&& m2.ops.len() >= base_len(m.ops)
            &&& (rule is UntilLeftParen ==> m2.ops.len() == base_len(m.ops))
            &&& (rule is TrailingFunction ==> m2 == m)
        }),
    decreases m.ops.len(),
{
    lemma_run_region(m.ops);
    if m.ops.len() == 0 {
        assert(m.ops == m.ops.take(0));
    } else {
        let t = m.ops.last();
        let k = t.kind_spec();
        if pop_rule_accepts(rule, k) {
            assert(run_kind(k));
            let m1 = YardModel {
                last: m.last,
                count: m.count,
                out: m.out,
                ops: m.ops.drop_last(),
                fns: m.fns,
            };
            let m2 = emit_model(m1, t)->Ok_0;
            assert(m2.count >= 1 && good_start(m2.ops, fns0, m2.count - 1));
            lemma_pop_run(m2, rule, fns0);
            let m3 = pop_while_model(m2, rule)->Ok_0;
            assert(m3.ops == m2.ops.take(m3.ops.len() as int));
            assert(m3.ops =~= m.ops.take(m3.ops.len() as int));
            assert(base_len(m.ops) == base_len(m.ops.drop_last()));
        } else {
            assert(m.ops =~= m.ops.take(m.ops.len() as int));
            if rule is UntilLeftParen {
                assert(!run_kind(k));
                assert(run_len(m.ops) == 0);
            }
            assert(m.ops.len() >= base_len(m.ops));
        }
    }
}

proof fn lemma_args_count_pos<T>(a: Args<T>)
    ensures
        args_count(a) >= 1,
    decreases a,
{
    match a {
        Args::Last(_) => {},
        Args::More(_, _, rest) => {
            lemma_args_count_pos(*rest);
        },
    }
}

/// The entry just below the top run, if there is one, is not itself a
/// loose operator entry.
proof fn lemma_base_boundary<T: Token>(ops: Seq<T>)
    ensures
        base_len(ops) > 0 ==> !run_kind(ops[base_len(ops) - 1].kind_spec()),
    decreases ops.len(),
{
    lemma_run_region(ops);
    if ops.len() == 0 {
    } else if run_kind(ops.last().kind_spec()) {
        lemma_base_boundary(ops.drop_last());
        lemma_run_region(ops.drop_last());
        if base_len(ops) > 0 {
            assert(ops[base_len(ops) - 1] == ops.drop_last()[base_len(ops.drop_last()) - 1]);
        }
    } else {
        assert(ops[base_len(ops) - 1] == ops.last());
    }
}

/// What processing a whole well-formed expression from state `m` leaves
/// behind: one more net value under the same accounting, the same open
/// calls, an operand-like last kind, and an operator stack whose part
/// at and below the old base is untouched, with only loose operator
/// entries above it.
spec fn expr_post<T: Token>(m: YardModel<T>, toks: Seq<T>, m2: YardModel<T>) -> bool {
    &&& m2.count >= 1
    &&& good_start(m2.ops, m2.fns, m2.count - 1)
    &&& m2.fns == m.fns
    &&& (m2.last == Some(TokenKind::Value) || m2.last == Some(TokenKind::RightParen))
    &&& m2.count <= m.count + toks.len()
    &&& m2.ops.len() >= base_len(m.ops)
    &&& m2.ops.take(base_len(m.ops)) == m.ops.take(base_len(m.ops))
    &&& forall|i: int|
        base_len(m.ops) <= i < m2.ops.len() ==> run_kind((#[trigger] m2.ops[i]).kind_spec())
}

/// Draining the operator stack from a state just after a finished
/// expression over empty starting storage succeeds and leaves exactly
/// one net value.
proof fn lemma_drain_good<T: Token>(m: YardModel<T>)
    requires
        m.count >= 1,
        good_start(m.ops, m.fns, m.count - 1),
        run_len(m.ops) == m.ops.len(),
    ensures
        drain_model(m) is Ok,
        drain_model(m)->Ok_0.count == 1,
    decreases m.ops.len(),
{
    if m.ops.len() == 0 {
    } else {
        let t = m.ops.last();
        assert(run_kind(t.kind_spec()));
        let m1 = YardModel {
            last: m.last,
            count: m.count,
            out: m.out,
            ops: m.ops.drop_last(),
            fns: m.fns,
        };
        let m2 = emit_model(m1, t)->Ok_0;
        lemma_drain_good(m2);
    }
}

/// If a stack agrees with `ops0` at and below `ops0`'s base and holds
/// only loose operator entries above it, its base is `ops0`'s base.
proof fn lemma_same_base<T: Token>(ops0: Seq<T>, ops1: Seq<T>)
    requires
        ops1.len() >= base_len(ops0),
        ops1.take(base_len(ops0)) == ops0.take(base_len(ops0)),
        forall|i: int|
            base_len(ops0) <= i < ops1.len() ==> run_kind((#[trigger] ops1[i]).kind_spec()),
    ensures
        base_len(ops1) == base_len(ops0),
{
    let b = base_len(ops0);
    lemma_run_region(ops0);
    lemma_base_boundary(ops0);
    if b > 0 {
        assert(ops1[b - 1] == ops1.take(b)[b - 1]);
        assert(ops0[b - 1] == ops0.take(b)[b - 1]);
    }
    lemma_run_len_at(ops1, b);
}

/// Processing a well-formed expression from any state that admits one
/// succeeds and leaves what `expr_post` says.
#[verifier::rlimit(100)]
proof fn lemma_process_expr<T: Token>(m: YardModel<T>, e: Expr<T>)
    requires
        expr_wf(e),
        expr_may_start(m.last),
        good_start(m.ops, m.fns, m.count as int),
        m.count + expr_tokens(e).len() <= usize::MAX,
    ensures
        process_all_model(m, expr_tokens(e)) is Ok,
        expr_post(m, expr_tokens(e), process_all_model(m, expr_tokens(e))->Ok_0),
    decreases e,
{
    lemma_run_region(m.ops);
    lemma_base_boundary(m.ops);
    let b = base_len(m.ops);
    match e {
        Expr::Leaf(t) => {
            lemma_process_all_single(m, t);
            assert(adjacency_ok(m.last, t.kind_spec()));
            assert(process_model(m, t) is Ok);
        },
        Expr::Unary(u, sub) => {
            let ts = expr_tokens(*sub);
            assert(expr_tokens(e) == seq![u] + ts);
            lemma_process_all_append(m, seq![u], ts);
            lemma_process_all_single(m, u);
            assert(adjacency_ok(m.last, u.kind_spec()));
            let m1 = process_model(m, u)->Ok_0;
            assert(m1.ops == m.ops.push(u));
            assert(m1.ops.drop_last() =~= m.ops);
            assert(good_start(m1.ops, m1.fns, m1.count as int));
            assert(base_len(m1.ops) == b);
            assert(m1.ops.take(b) =~= m.ops.take(b));
            lemma_process_expr(m1, *sub);
            let m2 = process_all_model(m1, ts)->Ok_0;
            assert(m2.ops.take(b) == m.ops.take(b));
            assert(expr_post(m, expr_tokens(e), m2));
        },
        Expr::Infix(l, op, r) => {
            let tl = expr_tokens(*l);
            let tr = expr_tokens(*r);
            assert(expr_tokens(e) == tl + seq![op] + tr);
            lemma_process_all_append(m, tl + seq![op], tr);
            lemma_process_all_append(m, tl, seq![op]);
            lemma_process_expr(m, *l);
            let m1 = process_all_model(m, tl)->Ok_0;
            lemma_process_all_single(m1, op);
            lemma_same_base(m.ops, m1.ops);
            assert(adjacency_ok(m1.last, op.kind_spec()));
            let p = op.kind_spec()->InfixOperator_0;
            let m1p = YardModel {
                last: Some(op.kind_spec()),
                count: m1.count,
                out: m1.out,
                ops: m1.ops,
                fns: m1.fns,
            };
            lemma_pop_run(m1p, PopRule::UnaryOrInfixUpTo(p), m1.fns);
            let m2 = pop_while_model(m1p, PopRule::UnaryOrInfixUpTo(p))->Ok_0;
            assert(process_model(m1, op) is Ok);
            let m3 = process_model(m1, op)->Ok_0;
            assert(m3.ops == m2.ops.push(op));
            assert(m3.ops.drop_last() =~= m2.ops);
            assert(good_start(m3.ops, m3.fns, m3.count as int));
            assert forall|i: int| b <= i < m2.ops.len() implies run_kind(
                (#[trigger] m2.ops[i]).kind_spec()) by {
                assert(m2.ops[i] == m1p.ops.take(m2.ops.len() as int)[i]);
                assert(m2.ops[i] == m1.ops[i]);
            }
            assert(m2.ops.take(b) =~= m1.ops.take(b));
            assert forall|i: int| b <= i < m3.ops.len() implies run_kind(
                (#[trigger] m3.ops[i]).kind_spec()) by {
                if i < m2.ops.len() {
                    assert(m3.ops[i] == m2.ops[i]);
                } else {
                    assert(m3.ops[i] == op);
                }
            }
            assert(m3.ops.take(b) =~= m2.ops.take(b));
            lemma_run_len_at(m3.ops, b);
            assert(base_len(m3.ops) == b);
            assert(expr_may_start(m3.last));
            lemma_process_expr(m3, *r);
            let m4 = process_all_model(m3, tr)->Ok_0;
            assert(process_all_model(m, expr_tokens(e)) == Ok::<YardModel<T>, Error>(m4));
            assert(m4.ops.take(b) == m.ops.take(b));
            assert(m4.count <= m.count + expr_tokens(e).len());
            assert(expr_post(m, expr_tokens(e), m4));
        },
        Expr::Group(lp, sub, rp) => {
            let ts = expr_tokens(*sub);
            assert(expr_tokens(e) == seq![lp] + ts + seq![rp]);
            lemma_process_all_append(m, seq![lp] + ts, seq![rp]);
            lemma_process_all_append(m, seq![lp], ts);
            lemma_process_all_single(m, lp);
            assert(adjacency_ok(m.last, lp.kind_spec()));
            let m1 = process_model(m, lp)->Ok_0;
            assert(m1.ops == m.ops.push(lp));
            assert(m1.ops.drop_last() =~= m.ops);
            if m.ops.len() > 0 {
                assert(!(m.ops.last().kind_spec() is Function));
            }
            assert(good_start(m1.ops, m1.fns, m1.count as int));
            assert(run_len(m1.ops) == 0);
            lemma_process_expr(m1, *sub);
            let m2 = process_all_model(m1, ts)->Ok_0;
            lemma_process_all_single(m2, rp);
            assert(adjacency_ok(m2.last, rp.kind_spec()));
            let m2p = YardModel {
                last: Some(rp.kind_spec()),
                count: m2.count,
                out: m2.out,
                ops: m2.ops,
                fns: m2.fns,
            };
            lemma_pop_run(m2p, PopRule::UntilLeftParen, m2.fns);
            let m3 = pop_while_model(m2p, PopRule::UntilLeftParen)->Ok_0;
            assert(m2.ops[m1.ops.len() - 1] == m2.ops.take(m1.ops.len() as int)[m1.ops.len()
                - 1]);
            lemma_run_len_at(m2.ops, m1.ops.len() as int);
            assert(m3.ops =~= m1.ops);
            assert(m3.ops.last() == lp);
            let m4 = YardModel {
                last: m3.last,
                count: m3.count,
                out: m3.out,
                ops: m3.ops.drop_last(),
                fns: m3.fns,
            };
            assert(m4.ops =~= m.ops);
            assert(m3.ops.drop_last() =~= m.ops);
            assert(good_start(m4.ops, m4.fns, m4.count - 1));
            lemma_pop_run(m4, PopRule::TrailingFunction, m4.fns);
            let m5 = pop_while_model(m4, PopRule::TrailingFunction)->Ok_0;
            assert(m5 == m4);
            assert(process_model(m2, rp) == Ok::<YardModel<T>, Error>(m5));
            assert(process_all_model(m, expr_tokens(e)) == Ok::<YardModel<T>, Error>(m5));
            assert(expr_post(m, expr_tokens(e), m5));
        },
        Expr::Call(f, lpar, args, rpar) => {
            let n = f.kind_spec()->Function_0;
            lemma_args_count_pos(*args);
            let ta = args_tokens(*args);
            assert(expr_tokens(e) == seq![f, lpar] + ta + seq![rpar]);
            assert(seq![f, lpar] =~= seq![f] + seq![lpar]);
            lemma_process_all_append(m, seq![f, lpar] + ta, seq![rpar]);
            lemma_process_all_append(m, seq![f, lpar], ta);
            lemma_process_all_append(m, seq![f], seq![lpar]);
            lemma_process_all_single(m, f);
            assert(adjacency_ok(m.last, f.kind_spec()));
            let m1 = process_model(m, f)->Ok_0;
            assert(m1.ops == m.ops.push(f) && m1.fns == m.fns.push(n));
            lemma_process_all_single(m1, lpar);
            assert(adjacency_ok(m1.last, lpar.kind_spec()));
            let m2 = process_model(m1, lpar)->Ok_0;
            assert(m2.ops == m.ops.push(f).push(lpar));
            assert(m2.ops.drop_last() =~= m1.ops);
            assert(m1.ops.drop_last() =~= m.ops);
            assert(m2.fns.drop_last() =~= m.fns);
            assert(n >= 1);
            assert(good_start(m2.ops, m2.fns, m2.count as int));
            assert(m2.ops[m2.ops.len() - 2] == f);
            lemma_process_args(m2, *args);
            let m3 = process_all_model(m2, ta)->Ok_0;
            assert(m3.fns =~= m.fns.push(1));
            lemma_process_all_single(m3, rpar);
            assert(adjacency_ok(m3.last, rpar.kind_spec()));
            let m3p = YardModel {
                last: Some(rpar.kind_spec()),
                count: m3.count,
                out: m3.out,
                ops: m3.ops,
                fns: m3.fns,
            };
            lemma_pop_run(m3p, PopRule::UntilLeftParen, m3.fns);
            let m4 = pop_while_model(m3p, PopRule::UntilLeftParen)->Ok_0;
            assert(m3.ops[m2.ops.len() - 1] == m3.ops.take(m2.ops.len() as int)[m2.ops.len()
                - 1]);
            lemma_run_len_at(m3.ops, m2.ops.len() as int);
            assert(m4.ops =~= m2.ops);
            assert(m4.ops.last() == lpar);
            let m5 = YardModel {
                last: m4.last,
                count: m4.count,
                out: m4.out,
                ops: m4.ops.drop_last(),
                fns: m4.fns,
            };
            assert(m5.ops =~= m.ops.push(f));
            assert(m4.ops.drop_last() =~= m1.ops);
            // the accounting at the open call, read off `good_start`
            assert(m4.fns == m3.fns);
            assert(m4.fns.last() == 1usize);
            assert(m4.fns.drop_last() =~= m.fns);
            assert(good_start(m4.ops, m4.fns, m4.count - 1));
            assert(m4.count - 1 >= n - 1);
            assert(good_start(m.ops, m.fns, m4.count - 1 - (n - 1)));
            // closing pops the function itself
            assert(m5.ops.last() == f);
            assert(pop_rule_accepts(PopRule::TrailingFunction, f.kind_spec()));
            let m5d = YardModel {
                last: m5.last,
                count: m5.count,
                out: m5.out,
                ops: m5.ops.drop_last(),
                fns: m5.fns,
            };
            assert(m5d.ops =~= m.ops);
            assert(emit_model(m5d, f) is Ok);
            let m6 = emit_model(m5d, f)->Ok_0;
            assert(m6.count as int == m4.count - (n - 1));
            assert(m6.fns =~= m.fns);
            assert(m6.count >= 1);
            assert(good_start(m6.ops, m6.fns, m6.count - 1));
            lemma_pop_run(m6, PopRule::TrailingFunction, m6.fns);
            assert(pop_while_model(m6, PopRule::TrailingFunction) == Ok::<YardModel<T>, Error>(
                m6,
            ));
            assert(pop_while_model(m5, PopRule::TrailingFunction) == Ok::<YardModel<T>, Error>(
                m6,
            ));
            assert(process_model(m3, rpar) == Ok::<YardModel<T>, Error>(m6));
            assert(process_all_model(m, expr_tokens(e)) == Ok::<YardModel<T>, Error>(m6));
            assert(m6.count <= m.count + expr_tokens(e).len());
            assert(expr_post(m, expr_tokens(e), m6));
        },
    }
}

/// Processing a well-formed argument list inside an open call succeeds,
/// brings the call's pending-argument counter down to exactly 1, and
/// otherwise leaves what the surrounding call expects.
proof fn lemma_process_args<T: Token>(m: YardModel<T>, a: Args<T>)
    requires
        args_wf(a),
        m.last == Some(TokenKind::LeftParen) || m.last == Some(TokenKind::FnSeparator),
        good_start(m.ops, m.fns, m.count as int),
        m.ops.len() >= 2,
        m.ops.last().kind_spec() is LeftParen,
        m.ops[m.ops.len() - 2].kind_spec() is Function,
        m.fns.len() >= 1,
        m.fns.last() as int == args_count(a),
        m.count + args_tokens(a).len() <= usize::MAX,
    ensures
        process_all_model(m, args_tokens(a)) is Ok,
        ({
            let m2 = process_all_model(m, args_tokens(a))->Ok_0;
            &&& m2.count >= 1
            &&& good_start(m2.ops, m2.fns, m2.count - 1)
            &&& m2.fns == m.fns.update(m.fns.len() - 1, 1)
            &&& (m2.last == Some(TokenKind::Value) || m2.last == Some(TokenKind::RightParen))
            &&& m2.count <= m.count + args_tokens(a).len()
            &&& m2.ops.len() >= m.ops.len()
            &&& m2.ops.take(m.ops.len() as int) == m.ops
            &&& forall|i: int|
                m.ops.len() <= i < m2.ops.len() ==> run_kind((#[trigger] m2.ops[i]).kind_spec())
        }),
    decreases a,
{
    lemma_run_region(m.ops);
    assert(run_len(m.ops) == 0);
    assert(m.ops.take(m.ops.len() as int) =~= m.ops);
    match a {
        Args::Last(e0) => {
            lemma_process_expr(m, e0);
            let m2 = process_all_model(m, args_tokens(a))->Ok_0;
            assert(m.fns.last() == 1usize);
            assert(m.fns.update(m.fns.len() - 1, 1) =~= m.fns);
        },
        Args::More(e0, sep, rest) => {
            let t0 = expr_tokens(e0);
            let tr = args_tokens(*rest);
            assert(args_tokens(a) == t0 + seq![sep] + tr);
            lemma_process_all_append(m, t0 + seq![sep], tr);
            lemma_process_all_append(m, t0, seq![sep]);
            lemma_args_count_pos(*rest);
            lemma_process_expr(m, e0);
            let m1 = process_all_model(m, t0)->Ok_0;
            lemma_process_all_single(m1, sep);
            assert(adjacency_ok(m1.last, sep.kind_spec()));
            let r = m1.fns.last();
            assert(r as int == args_count(a));
            assert(r >= 2);
            let fns2 = m1.fns.update(m1.fns.len() - 1, (r - 1) as usize);
            let m1u = YardModel {
                last: Some(sep.kind_spec()),
                count: m1.count,
                out: m1.out,
                ops: m1.ops,
                fns: fns2,
            };
            lemma_pop_run(m1u, PopRule::UntilLeftParen, m1.fns);
            let mp = pop_while_model(m1u, PopRule::UntilLeftParen)->Ok_0;
            assert(m1.ops[m.ops.len() - 1] == m1.ops.take(m.ops.len() as int)[m.ops.len() - 1]);
            lemma_run_len_at(m1.ops, m.ops.len() as int);
            assert(mp.ops =~= m.ops);
            assert(mp.fns == fns2);
            assert(process_model(m1, sep) == Ok::<YardModel<T>, Error>(mp));
            // re-establish the accounting with the decremented counter
            assert(good_start(mp.ops, m1.fns, mp.count - 1));
            assert(m.ops.drop_last().last().kind_spec() is Function);
            let nm = m.ops.drop_last().last().kind_spec()->Function_0;
            assert(m.fns.drop_last() =~= fns2.drop_last());
            assert(fns2.last() == (r - 1) as usize);
            assert(good_start(mp.ops, fns2, mp.count as int));
            assert(mp.ops[mp.ops.len() - 2] == m.ops[m.ops.len() - 2]);
            assert(fns2.last() as int == args_count(*rest));
            lemma_process_args(mp, *rest);
            let m2 = process_all_model(mp, tr)->Ok_0;
            assert(m2.fns == fns2.update(fns2.len() - 1, 1));
            assert(m2.fns =~= m.fns.update(m.fns.len() - 1, 1));
            assert(m2.ops.take(m.ops.len() as int) =~= m.ops);
            assert(process_all_model(m, args_tokens(a)) == Ok::<YardModel<T>, Error>(m2));
        },
    }
}

/// Completeness over the expression grammar: the token stream of every
/// well-formed expression — operands, unary operators, infix operators
/// of any priorities, groups, and function calls whose argument counts
/// match their declared arities — converts successfully.
pub proof fn lemma_expression_accepted<T: Token>(e: Expr<T>)
    requires
        expr_wf(e),
        expr_tokens(e).len() <= usize::MAX,
    ensures
        run_model(expr_tokens(e)) is Ok,
{
    let m0 = init_model(Seq::<T>::empty(), Seq::<T>::empty(), Seq::<usize>::empty());
    assert(good_start(m0.ops, m0.fns, m0.count as int));
    lemma_process_expr(m0, e);
    let m1 = process_all_model(m0, expr_tokens(e))->Ok_0;
    assert(base_len(m0.ops) == 0);
    lemma_run_len_at(m1.ops, 0);
    lemma_drain_good(m1);
}

} // verus!
