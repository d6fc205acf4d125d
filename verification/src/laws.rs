//! General laws of the evaluator, each proved once and for all inputs.

use vstd::prelude::*;
use crate::bytecode::{ByteCode, EvalError};
use crate::semantics::{
    apply_op, end_loop_from, eval_from, eval_repeat, is_binary_op, lemma_end_loop_from_found, run,
    EvalOutcome, EvalState,
};

verus! {

/// A straight-line arithmetic expression: the precedence of its operators
/// is already resolved in its shape.
pub enum Expr {
    /// A literal operand.
    Lit(i32),
    /// A binary operator over a left and a right sub-expression; the
    /// operator is one of the five arithmetic instructions.
    Bin(ByteCode, Box<Expr>, Box<Expr>),
}

/// The value of an expression, each operator applied to the values of its
/// sub-expressions, left before right.
pub open spec fn eval_expr(e: Expr) -> i32
    decreases e,
{
    match e {
        Expr::Lit(n) => n,
        Expr::Bin(op, l, r) => match apply_op(op, eval_expr(*l), eval_expr(*r)) {
            Ok(v) => v,
            Err(_) => arbitrary(),
        },
    }
}

/// A well-formed expression: every operator is binary and no division or
/// modulo meets a zero divisor.
pub open spec fn expr_wf(e: Expr) -> bool
    decreases e,
{
    match e {
        Expr::Lit(_) => true,
        Expr::Bin(op, l, r) => is_binary_op(op) && expr_wf(*l) && expr_wf(*r) && apply_op(
            op,
            eval_expr(*l),
            eval_expr(*r),
        ) is Ok,
    }
}

/// The expression compiled to postfix stack order: operands first, the
/// operator after them.
pub open spec fn postfix(e: Expr) -> Seq<ByteCode>
    decreases e,
{
    match e {
        Expr::Lit(n) => seq![ByteCode::LoadVal(n)],
        Expr::Bin(op, l, r) => postfix(*l) + postfix(*r) + seq![op],
    }
}

/// Walking the postfix code of a well-formed expression pushes exactly the
/// expression's value and touches nothing else.
proof fn lemma_postfix_eval_from(codes: Seq<ByteCode>, i: int, end: int, e: Expr, st: EvalState)
    requires
        expr_wf(e),
        0 <= i,
        i + postfix(e).len() <= end <= codes.len(),
        codes.subrange(i, i + postfix(e).len()) == postfix(e),
    ensures
        eval_from(codes, i, end, st) == eval_from(
            codes,
            i + postfix(e).len(),
            end,
            st.push(eval_expr(e)),
        ),
    decreases e,
{
    match e {
        Expr::Lit(n) => {
            assert(codes.subrange(i, i + 1)[0] == postfix(e)[0]);
            assert(codes[i] == ByteCode::LoadVal(n));
        }
        Expr::Bin(op, l, r) => {
            let pl = postfix(*l);
            let pr = postfix(*r);
            let nl = pl.len() as int;
            let nr = pr.len() as int;
            let vl = eval_expr(*l);
            let vr = eval_expr(*r);
            let whole = codes.subrange(i, i + postfix(e).len());
            assert(codes.subrange(i, i + nl) =~= pl) by {
                assert(forall|m: int| 0 <= m < nl ==> codes.subrange(i, i + nl)[m] == whole[m]);
            }
            assert(codes.subrange(i + nl, i + nl + nr) =~= pr) by {
                assert(forall|m: int|
                    0 <= m < nr ==> #[trigger] codes.subrange(i + nl, i + nl + nr)[m] == whole[nl
                        + m]);
            }
            assert(codes[i + nl + nr] == whole[nl + nr]);
            assert(codes[i + nl + nr] == op);
            lemma_postfix_eval_from(codes, i, end, *l, st);
            lemma_postfix_eval_from(codes, i + nl, end, *r, st.push(vl));
            let st2 = st.push(vl).push(vr);
            let j = i + nl + nr;
            assert(st2.stack.len() >= 2);
            assert(st2.stack.last() == vr);
            assert(st2.stack[st2.stack.len() - 2] == vl);
            let v = apply_op(op, vl, vr)->Ok_0;
            assert(st2.stack.drop_last() =~= st.stack.push(vl));
            assert(st.stack.push(vl).drop_last() =~= st.stack);
            assert(st2.pop_two_push(v) == st.push(eval_expr(e)));
            assert(eval_from(codes, j, end, st2) == eval_from(
                codes,
                j + 1,
                end,
                st.push(eval_expr(e)),
            ));
        }
    }
}

/// The evaluator computes straight-line arithmetic exactly: running the
/// postfix code of any well-formed expression, from any state, succeeds
/// and pushes the expression's value — the evaluator itself holds no
/// operator-precedence logic, the postfix order already carries it.
pub proof fn lemma_straight_line_arithmetic(e: Expr, st: EvalState)
    requires
        expr_wf(e),
    ensures
        run(postfix(e), st) == (EvalOutcome {
            state: st.push(eval_expr(e)),
            error: None::<EvalError>,
        }),
{
    let codes = postfix(e);
    assert(codes.subrange(0, codes.len() as int) =~= codes);
    lemma_postfix_eval_from(codes, 0, codes.len() as int, e, st);
}

/// Binary operators take their operands in stack order: the program
/// `LoadVal(b); LoadVal(a); Subtract` computes `b - a` — the value pushed
/// first is the left operand, the value popped first the right one.
pub proof fn lemma_operand_order(b: i32, a: i32, st: EvalState)
    ensures
        ({
            let prog = seq![ByteCode::LoadVal(b), ByteCode::LoadVal(a), ByteCode::Subtract];
            run(prog, st) == (EvalOutcome {
                state: st.push(b.wrapping_sub(a)),
                error: None::<EvalError>,
            })
        }),
{
    let prog = seq![ByteCode::LoadVal(b), ByteCode::LoadVal(a), ByteCode::Subtract];
    let s1 = st.push(b);
    let s2 = s1.push(a);
    assert(eval_from(prog, 0, 3, st) == eval_from(prog, 1, 3, s1));
    assert(eval_from(prog, 1, 3, s1) == eval_from(prog, 2, 3, s2));
    assert(s2.stack.last() == a && s2.stack[s2.stack.len() - 2] == b);
    assert(s2.stack.drop_last() =~= s1.stack);
    assert(s1.stack.drop_last() =~= st.stack);
    assert(s2.pop_two_push(b.wrapping_sub(a)) == st.push(b.wrapping_sub(a)));
    assert(eval_from(prog, 2, 3, s2) == eval_from(prog, 3, 3, st.push(b.wrapping_sub(a))));
}

/// Writing a name twice leaves the second value: after
/// `v1 -> name; v2 -> name`, a read of `name` sees `v2`, and the bindings
/// as a whole are as if only the second write had happened.
pub proof fn lemma_rebinding(name: String, v1: i32, v2: i32, st: EvalState)
    ensures
        ({
            let prog = seq![
                ByteCode::LoadVal(v1),
                ByteCode::WriteVar(name),
                ByteCode::LoadVal(v2),
                ByteCode::WriteVar(name),
                ByteCode::ReadVar(name),
            ];
            run(prog, st) == (EvalOutcome {
                state: EvalState {
                    stack: st.stack.push(v2),
                    vars: st.vars.insert(name@, v2),
                },
                error: None::<EvalError>,
            })
        }),
{
    let prog = seq![
        ByteCode::LoadVal(v1),
        ByteCode::WriteVar(name),
        ByteCode::LoadVal(v2),
        ByteCode::WriteVar(name),
        ByteCode::ReadVar(name),
    ];
    let s1 = st.push(v1);
    let s2 = s1.bind_top(name@);
    let s3 = s2.push(v2);
    let s4 = s3.bind_top(name@);
    let s5 = s4.push(v2);
    assert(eval_from(prog, 0, 5, st) == eval_from(prog, 1, 5, s1));
    assert(s1.stack.len() > 0);
    assert(eval_from(prog, 1, 5, s1) == eval_from(prog, 2, 5, s2));
    assert(eval_from(prog, 2, 5, s2) == eval_from(prog, 3, 5, s3));
    assert(s3.stack.len() > 0);
    assert(eval_from(prog, 3, 5, s3) == eval_from(prog, 4, 5, s4));
    assert(s4.vars.contains_key(name@) && s4.vars[name@] == v2);
    assert(eval_from(prog, 4, 5, s4) == eval_from(prog, 5, 5, s5));
    assert(s1.stack.drop_last() =~= st.stack);
    assert(s3.stack.drop_last() =~= s2.stack);
    assert(s5.stack =~= st.stack.push(v2));
    assert(s5.vars =~= st.vars.insert(name@, v2));
}

/// A loop body runs exactly `k` times, mutating the shared state across
/// iterations: repeating the body `name + d -> name`, standing anywhere in
/// a program at indices `b .. b + 4`, a total of `k` times from a state
/// that binds `name` to `v0` leaves `name` bound to `v0 + k * d` and
/// everything else unchanged (stated here without overflow, so that the
/// sum is the plain mathematical one).
pub proof fn lemma_loop_body_runs_k_times(
    codes: Seq<ByteCode>,
    b: int,
    name: String,
    d: i32,
    k: int,
    v0: i32,
    st: EvalState,
)
    requires
        0 <= b,
        b + 4 <= codes.len(),
        codes[b] == ByteCode::ReadVar(name),
        codes[b + 1] == ByteCode::LoadVal(d),
        codes[b + 2] == ByteCode::Add,
        codes[b + 3] == ByteCode::WriteVar(name),
        0 <= v0,
        0 <= d,
        0 <= k,
        v0 + k * d <= i32::MAX,
        st.vars.contains_key(name@),
        st.vars[name@] == v0,
    ensures
        eval_repeat(codes, b, b + 4, k, st) == (EvalOutcome {
            state: EvalState {
                stack: st.stack,
                vars: st.vars.insert(name@, (v0 + k * d) as i32),
            },
            error: None::<EvalError>,
        }),
    decreases k,
{
    if k == 0 {
        assert(st.vars.insert(name@, v0) =~= st.vars);
        assert(eval_repeat(codes, b, b + 4, 0, st) == (EvalOutcome {
            state: st,
            error: None::<EvalError>,
        }));
        assert(st == (EvalState { stack: st.stack, vars: st.vars.insert(name@, v0) }));
    } else {
        assert(d <= k * d) by (nonlinear_arith)
            requires
                1 <= k,
                0 <= d,
        ;
        let s1 = st.push(v0);
        let s2 = s1.push(d);
        let sum = (v0 + d) as i32;
        let s3 = s2.pop_two_push(sum);
        let s4 = s3.bind_top(name@);
        assert(eval_from(codes, b, b + 4, st) == eval_from(codes, b + 1, b + 4, s1));
        assert(eval_from(codes, b + 1, b + 4, s1) == eval_from(codes, b + 2, b + 4, s2));
        assert(s2.stack.last() == d && s2.stack[s2.stack.len() - 2] == v0);
        assert(v0.wrapping_add(d) == sum);
        assert(eval_from(codes, b + 2, b + 4, s2) == eval_from(codes, b + 3, b + 4, s3));
        assert(s3.stack.len() > 0 && s3.stack.last() == sum);
        assert(eval_from(codes, b + 3, b + 4, s3) == eval_from(codes, b + 4, b + 4, s4));
        assert(s2.stack.drop_last() =~= s1.stack);
        assert(s1.stack.drop_last() =~= st.stack);
        assert(s3.stack.drop_last() =~= st.stack);
        let st_next = EvalState { stack: st.stack, vars: st.vars.insert(name@, sum) };
        assert(s4 == st_next);
        assert(eval_repeat(codes, b, b + 4, k, st) == eval_repeat(codes, b, b + 4, k - 1, st_next));
        assert((k - 1) * d == k * d - d) by (nonlinear_arith);
        lemma_loop_body_runs_k_times(codes, b, name, d, k - 1, sum, st_next);
        assert(st.vars.insert(name@, sum).insert(name@, (v0 + k * d) as i32) =~= st.vars.insert(
            name@,
            (v0 + k * d) as i32,
        ));
    }
}

/// The counting-loop program as a whole: `0 -> name; loop k times
/// { name + d -> name }; read name`. The loop runs its body `k` times;
/// the instruction walk then passes over the body once more as
/// straight-line code before the `EndLoop` marker, so the program returns
/// `(k + 1) * d` — for five rounds of adding five, thirty.
pub proof fn lemma_counting_loop_program(name: String, d: i32, k: i32, st: EvalState)
    requires
        0 <= d,
        0 <= k,
        (k as int + 1) * d <= i32::MAX,
    ensures
        ({
            let prog = seq![
                ByteCode::LoadVal(0),
                ByteCode::WriteVar(name),
                ByteCode::LoadVal(k),
                ByteCode::Loop,
                ByteCode::ReadVar(name),
                ByteCode::LoadVal(d),
                ByteCode::Add,
                ByteCode::WriteVar(name),
                ByteCode::EndLoop,
                ByteCode::ReadVar(name),
            ];
            let total = ((k as int + 1) * d) as i32;
            run(prog, st) == (EvalOutcome {
                state: EvalState {
                    stack: st.stack.push(total),
                    vars: st.vars.insert(name@, total),
                },
                error: None::<EvalError>,
            })
        }),
{
    let prog = seq![
        ByteCode::LoadVal(0),
        ByteCode::WriteVar(name),
        ByteCode::LoadVal(k),
        ByteCode::Loop,
        ByteCode::ReadVar(name),
        ByteCode::LoadVal(d),
        ByteCode::Add,
        ByteCode::WriteVar(name),
        ByteCode::EndLoop,
        ByteCode::ReadVar(name),
    ];
    let kd = (k as int) * d;
    assert((k as int) * d + d == (k as int + 1) * d) by (nonlinear_arith);
    assert(0 <= (k as int) * d) by (nonlinear_arith)
        requires
            0 <= k,
            0 <= d,
    ;
    let s1 = st.push(0);
    let s2 = s1.bind_top(name@);
    let s3 = s2.push(k);
    assert(eval_from(prog, 0, 10, st) == eval_from(prog, 1, 10, s1));
    assert(s1.stack.len() > 0);
    assert(eval_from(prog, 1, 10, s1) == eval_from(prog, 2, 10, s2));
    assert(eval_from(prog, 2, 10, s2) == eval_from(prog, 3, 10, s3));
    lemma_end_loop_from_found(prog, 4, 10, 8);
    assert(end_loop_from(prog, 4, 10) == Some(8int));
    assert(s3.stack.len() > 0 && s3.stack.last() == k);
    assert(s3.pop_one() == s2) by {
        assert(s3.stack.drop_last() =~= s2.stack);
    }
    assert(s2.vars.contains_key(name@) && s2.vars[name@] == 0);
    lemma_loop_body_runs_k_times(prog, 4, name, d, k as int, 0, s2);
    let mid = EvalState { stack: s2.stack, vars: s2.vars.insert(name@, kd as i32) };
    assert(eval_repeat(prog, 4, 8, k as int, s2) == (EvalOutcome {
        state: mid,
        error: None::<EvalError>,
    }));
    assert(eval_from(prog, 3, 10, s3) == eval_from(prog, 4, 10, mid));
    let t1 = mid.push(kd as i32);
    let t2 = t1.push(d);
    let sum = (kd + d) as i32;
    let t3 = t2.pop_two_push(sum);
    let t4 = t3.bind_top(name@);
    assert(mid.vars.contains_key(name@) && mid.vars[name@] == kd as i32);
    assert(eval_from(prog, 4, 10, mid) == eval_from(prog, 5, 10, t1));
    assert(eval_from(prog, 5, 10, t1) == eval_from(prog, 6, 10, t2));
    assert(t2.stack.last() == d && t2.stack[t2.stack.len() - 2] == kd as i32);
    assert((kd as i32).wrapping_add(d) == sum);
    assert(eval_from(prog, 6, 10, t2) == eval_from(prog, 7, 10, t3));
    assert(t3.stack.len() > 0 && t3.stack.last() == sum);
    assert(eval_from(prog, 7, 10, t3) == eval_from(prog, 8, 10, t4));
    assert(eval_from(prog, 8, 10, t4) == eval_from(prog, 9, 10, t4));
    assert(t4.vars.contains_key(name@) && t4.vars[name@] == sum);
    let t5 = t4.push(sum);
    assert(eval_from(prog, 9, 10, t4) == eval_from(prog, 10, 10, t5));
    assert(s1.stack.drop_last() =~= st.stack);
    assert(t2.stack.drop_last() =~= t1.stack);
    assert(t1.stack.drop_last() =~= mid.stack);
    assert(t3.stack.drop_last() =~= mid.stack);
    assert(t5.stack =~= st.stack.push(sum));
    assert(t5.vars =~= st.vars.insert(name@, sum));
}

/// A repeat count of zero or less runs the loop body not at all: the state
/// comes back untouched and no error arises.
pub proof fn lemma_nonpositive_count_skips_body(
    codes: Seq<ByteCode>,
    bstart: int,
    bend: int,
    k: int,
    st: EvalState,
)
    requires
        k <= 0,
    ensures
        eval_repeat(codes, bstart, bend, k, st) == (EvalOutcome {
            state: st,
            error: None::<EvalError>,
        }),
{
}

/// Bindings persist from one run to the next when the state the first run
/// left is carried over, as a reused `Interpreter` instance carries it: a
/// first program that writes `name` makes a second program that merely
/// reads `name` succeed with the written value.
pub proof fn lemma_reuse_preserves_bindings(name: String, v: i32, st: EvalState)
    ensures
        ({
            let o1 = run(seq![ByteCode::LoadVal(v), ByteCode::WriteVar(name)], st);
            let o2 = run(seq![ByteCode::ReadVar(name)], o1.state);
            o1.error is None && o1.state.vars == st.vars.insert(name@, v) && o2.error is None
                && o2.state == o1.state.push(v)
        }),
{
    let prog1 = seq![ByteCode::LoadVal(v), ByteCode::WriteVar(name)];
    let s1 = st.push(v);
    let s2 = s1.bind_top(name@);
    assert(eval_from(prog1, 0, 2, st) == eval_from(prog1, 1, 2, s1));
    assert(s1.stack.len() > 0);
    assert(eval_from(prog1, 1, 2, s1) == eval_from(prog1, 2, 2, s2));
    let prog2 = seq![ByteCode::ReadVar(name)];
    assert(s2.vars.contains_key(name@) && s2.vars[name@] == v);
    assert(eval_from(prog2, 0, 1, s2) == eval_from(prog2, 1, 1, s2.push(v)));
}

} // verus!
