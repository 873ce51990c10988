//! A model of expressions over value literals, their evaluation under
//! the usual grouping (parentheses, unary minus, then `*`/`/` before
//! `+`/`-`, left-associative) with dynamic type checks, and the bytecode
//! the compiler emits for them: operands first, operator last, constants
//! in literal order.  The theorem at the bottom says the virtual machine
//! executes such code to exactly the expression's meaning: its value
//! where it has one, a runtime error where an arithmetic operator meets
//! a non-number.
use vstd::prelude::*;

use crate::chunk::OpCode;
use crate::debug::value_text;
use crate::num::add_bits;
use crate::num::div_bits;
use crate::num::mul_bits;
use crate::num::neg_bits;
use crate::num::sub_bits;
use crate::value::Value;
use crate::vm::run_from;
use crate::vm::InterpretResult;

verus! {

/// An expression: a literal — a number held as its double's bit
/// pattern, a boolean, or the absence value — or an operator over
/// subexpressions.  The tree structure is the grouping: precedence and
/// associativity are fixed by how a source expression parses into this
/// shape.
pub enum Expr {
    Num(u64),
    Bool(bool),
    Nil,
    Neg(Box<Expr>),
    Add(Box<Expr>, Box<Expr>),
    Sub(Box<Expr>, Box<Expr>),
    Mul(Box<Expr>, Box<Expr>),
    Div(Box<Expr>, Box<Expr>),
}

/// The value an expression evaluates to, or nothing where evaluation
/// fails: the arithmetic operators demand number operands, and a type
/// error anywhere poisons the whole expression.
pub open spec fn eval_value(e: Expr) -> Option<Value>
    decreases e,
{
    match e {
        Expr::Num(b) => Some(Value::Number(b)),
        Expr::Bool(b) => Some(Value::Bool(b)),
        Expr::Nil => Some(Value::Nil),
        Expr::Neg(x) => match eval_value(*x) {
            Some(Value::Number(n)) => Some(Value::Number(neg_bits(n))),
            _ => None,
        },
        Expr::Add(l, r) => match (eval_value(*l), eval_value(*r)) {
            (Some(Value::Number(x)), Some(Value::Number(y))) => Some(
                Value::Number(add_bits(x, y)),
            ),
            _ => None,
        },
        Expr::Sub(l, r) => match (eval_value(*l), eval_value(*r)) {
            (Some(Value::Number(x)), Some(Value::Number(y))) => Some(
                Value::Number(sub_bits(x, y)),
            ),
            _ => None,
        },
        Expr::Mul(l, r) => match (eval_value(*l), eval_value(*r)) {
            (Some(Value::Number(x)), Some(Value::Number(y))) => Some(
                Value::Number(mul_bits(x, y)),
            ),
            _ => None,
        },
        Expr::Div(l, r) => match (eval_value(*l), eval_value(*r)) {
            (Some(Value::Number(x)), Some(Value::Number(y))) => Some(
                Value::Number(div_bits(x, y)),
            ),
            _ => None,
        },
    }
}

/// An expression built from numbers and arithmetic alone.
pub open spec fn numeric(e: Expr) -> bool
    decreases e,
{
    match e {
        Expr::Num(_) => true,
        Expr::Bool(_) => false,
        Expr::Nil => false,
        Expr::Neg(x) => numeric(*x),
        Expr::Add(l, r) => numeric(*l) && numeric(*r),
        Expr::Sub(l, r) => numeric(*l) && numeric(*r),
        Expr::Mul(l, r) => numeric(*l) && numeric(*r),
        Expr::Div(l, r) => numeric(*l) && numeric(*r),
    }
}

/// Purely arithmetic expressions never fail: they evaluate to a number,
/// whatever its value.
pub proof fn lemma_numeric_evaluates(e: Expr)
    requires
        numeric(e),
    ensures
        eval_value(e) matches Some(v) && v is Number,
    decreases e,
{
    match e {
        Expr::Num(_) => {},
        Expr::Bool(_) => {},
        Expr::Nil => {},
        Expr::Neg(x) => {
            lemma_numeric_evaluates(*x);
        },
        Expr::Add(l, r) => {
            lemma_numeric_evaluates(*l);
            lemma_numeric_evaluates(*r);
        },
        Expr::Sub(l, r) => {
            lemma_numeric_evaluates(*l);
            lemma_numeric_evaluates(*r);
        },
        Expr::Mul(l, r) => {
            lemma_numeric_evaluates(*l);
            lemma_numeric_evaluates(*r);
        },
        Expr::Div(l, r) => {
            lemma_numeric_evaluates(*l);
            lemma_numeric_evaluates(*r);
        },
    }
}

/// The expression's number literals, in source order: the order in
/// which the compiler registers them in the constant pool.
pub open spec fn lits(e: Expr) -> Seq<u64>
    decreases e,
{
    match e {
        Expr::Num(b) => seq![b],
        Expr::Bool(_) => Seq::empty(),
        Expr::Nil => Seq::empty(),
        Expr::Neg(x) => lits(*x),
        Expr::Add(l, r) => lits(*l) + lits(*r),
        Expr::Sub(l, r) => lits(*l) + lits(*r),
        Expr::Mul(l, r) => lits(*l) + lits(*r),
        Expr::Div(l, r) => lits(*l) + lits(*r),
    }
}

/// The instruction of a binary operator node.
pub open spec fn op_instr(e: Expr) -> OpCode {
    match e {
        Expr::Add(_, _) => OpCode::OpAdd,
        Expr::Sub(_, _) => OpCode::OpSubtract,
        Expr::Mul(_, _) => OpCode::OpMultiply,
        Expr::Div(_, _) => OpCode::OpDivide,
        _ => OpCode::OpReturn,
    }
}

/// The code emitted for an expression whose first literal sits at pool
/// index `base`: each operand's code in turn, then the operator.
pub open spec fn code_of(e: Expr, base: int) -> Seq<OpCode>
    decreases e,
{
    match e {
        Expr::Num(_) => seq![OpCode::OpConstant { index: base as usize }],
        Expr::Bool(b) => if b {
            seq![OpCode::OpTrue]
        } else {
            seq![OpCode::OpFalse]
        },
        Expr::Nil => seq![OpCode::OpNil],
        Expr::Neg(x) => code_of(*x, base).push(OpCode::OpNegate),
        Expr::Add(l, r) => code_of(*l, base) + code_of(*r, base + lits(*l).len()) + seq![
            OpCode::OpAdd,
        ],
        Expr::Sub(l, r) => code_of(*l, base) + code_of(*r, base + lits(*l).len()) + seq![
            OpCode::OpSubtract,
        ],
        Expr::Mul(l, r) => code_of(*l, base) + code_of(*r, base + lits(*l).len()) + seq![
            OpCode::OpMultiply,
        ],
        Expr::Div(l, r) => code_of(*l, base) + code_of(*r, base + lits(*l).len()) + seq![
            OpCode::OpDivide,
        ],
    }
}

/// The expression's literals as pool values, in registration order.
pub open spec fn lits_values(e: Expr) -> Seq<Value> {
    Seq::new(lits(e).len(), |k: int| Value::Number(lits(e)[k]))
}

/// The pool entries an expression's code relies on: its literals, as
/// numbers, from index `base` on.
pub open spec fn pool_matches(e: Expr, base: int, constants: Seq<Value>) -> bool {
    &&& 0 <= base
    &&& base + lits(e).len() <= constants.len()
    &&& base + lits(e).len() <= usize::MAX
    &&& forall|k: int|
        0 <= k < lits(e).len() ==> constants[base + k] == Value::Number(#[trigger] lits(e)[k])
}

/// Running an expression's code segment: where the expression
/// evaluates, execution continues past the segment with exactly that
/// one value pushed, from any cursor where the segment sits in the
/// chunk and any starting stack, printing and reporting nothing on the
/// way; where it does not — an arithmetic operator met a non-number —
/// execution halts with a runtime error and prints nothing.
pub proof fn lemma_code_evaluates(
    e: Expr,
    code: Seq<OpCode>,
    lines: Seq<usize>,
    constants: Seq<Value>,
    stack: Seq<Value>,
    i: int,
    base: int,
)
    requires
        0 <= i,
        i + code_of(e, base).len() <= code.len(),
        code.subrange(i, i + code_of(e, base).len()) == code_of(e, base),
        pool_matches(e, base, constants),
    ensures
        eval_value(e) matches Some(v) ==> run_from(code, lines, constants, stack, i) == run_from(
            code,
            lines,
            constants,
            stack.push(v),
            i + code_of(e, base).len(),
        ),
        eval_value(e) is None ==> ({
            let o = run_from(code, lines, constants, stack, i);
            o.result == InterpretResult::RuntimeError && o.output == Seq::<Seq<char>>::empty()
        }),
    decreases e, 1int,
{
    let seg = code_of(e, base);
    match e {
        Expr::Num(b) => {
            assert(code[i] == seg[0]);
            assert(code[i] == OpCode::OpConstant { index: base as usize });
            assert(lits(e)[0] == b);
            assert(constants[base + 0] == Value::Number(lits(e)[0]));
        },
        Expr::Bool(b) => {
            assert(code[i] == seg[0]);
        },
        Expr::Nil => {
            assert(code[i] == seg[0]);
            assert(code[i] == OpCode::OpNil);
        },
        Expr::Neg(x) => {
            let sx = code_of(*x, base);
            assert(code.subrange(i, i + sx.len()) =~= sx) by {
                assert(forall|j: int|
                    0 <= j < sx.len() ==> code.subrange(i, i + seg.len())[j] == #[trigger] seg[j]);
            }
            lemma_code_evaluates(*x, code, lines, constants, stack, i, base);
            if eval_value(*x) is Some {
                let v = eval_value(*x)->Some_0;
                let st1 = stack.push(v);
                assert(code[i + sx.len()] == seg[sx.len() as int]);
                assert(code[i + sx.len()] == OpCode::OpNegate);
                assert(st1.subrange(0, st1.len() - 1) =~= stack);
                if v is Number {
                    assert(st1.subrange(0, st1.len() - 1).push(
                        Value::Number(neg_bits(st1.last()->Number_0)),
                    ) =~= stack.push(eval_value(e)->Some_0));
                }
            }
        },
        Expr::Add(l, r) => {
            lemma_code_evaluates_binary(e, *l, *r, code, lines, constants, stack, i, base);
        },
        Expr::Sub(l, r) => {
            lemma_code_evaluates_binary(e, *l, *r, code, lines, constants, stack, i, base);
        },
        Expr::Mul(l, r) => {
            lemma_code_evaluates_binary(e, *l, *r, code, lines, constants, stack, i, base);
        },
        Expr::Div(l, r) => {
            lemma_code_evaluates_binary(e, *l, *r, code, lines, constants, stack, i, base);
        },
    }
}

/// The binary-operator case of [`lemma_code_evaluates`]: the left
/// operand's value goes on the stack first, the right operand's on top
/// of it, and the operator replaces both by its result, left operand on
/// the left — or halts when either operand is not a number.
proof fn lemma_code_evaluates_binary(
    e: Expr,
    l: Expr,
    r: Expr,
    code: Seq<OpCode>,
    lines: Seq<usize>,
    constants: Seq<Value>,
    stack: Seq<Value>,
    i: int,
    base: int,
)
    requires
        e == Expr::Add(Box::new(l), Box::new(r)) || e == Expr::Sub(Box::new(l), Box::new(r)) || e
            == Expr::Mul(Box::new(l), Box::new(r)) || e == Expr::Div(Box::new(l), Box::new(r)),
        0 <= i,
        i + code_of(e, base).len() <= code.len(),
        code.subrange(i, i + code_of(e, base).len()) == code_of(e, base),
        pool_matches(e, base, constants),
    ensures
        eval_value(e) matches Some(v) ==> run_from(code, lines, constants, stack, i) == run_from(
            code,
            lines,
            constants,
            stack.push(v),
            i + code_of(e, base).len(),
        ),
        eval_value(e) is None ==> ({
            let o = run_from(code, lines, constants, stack, i);
            o.result == InterpretResult::RuntimeError && o.output == Seq::<Seq<char>>::empty()
        }),
    decreases e, 0int,
{
    let seg = code_of(e, base);
    let sl = code_of(l, base);
    let base_r = base + lits(l).len();
    let sr = code_of(r, base_r);
    assert(seg =~= sl + sr + seq![op_instr(e)]);
    assert(lits(e) =~= lits(l) + lits(r));
    assert(forall|j: int|
        0 <= j < seg.len() ==> code[i + j] == #[trigger] seg[j]) by {
        assert(forall|j: int|
            0 <= j < seg.len() ==> code.subrange(i, i + seg.len())[j] == #[trigger] seg[j]);
    }
    assert(forall|j: int| 0 <= j < sl.len() ==> #[trigger] sl[j] == seg[j]);
    assert(forall|j: int| 0 <= j < sr.len() ==> #[trigger] sr[j] == seg[sl.len() + j]);
    assert(code.subrange(i, i + sl.len()) =~= sl);
    assert(pool_matches(l, base, constants)) by {
        assert(forall|k: int| 0 <= k < lits(l).len() ==> #[trigger] lits(l)[k] == lits(e)[k]);
    }
    lemma_code_evaluates(l, code, lines, constants, stack, i, base);
    if eval_value(l) is Some {
        let vl = eval_value(l)->Some_0;
        let st1 = stack.push(vl);
        assert(code.subrange(i + sl.len(), i + sl.len() + sr.len()) =~= sr);
        assert(pool_matches(r, base_r, constants)) by {
            assert(forall|k: int|
                0 <= k < lits(r).len() ==> #[trigger] lits(r)[k] == lits(e)[lits(l).len() + k]);
        }
        lemma_code_evaluates(r, code, lines, constants, st1, i + sl.len(), base_r);
        if eval_value(r) is Some {
            let vr = eval_value(r)->Some_0;
            let st2 = st1.push(vr);
            let j = i + sl.len() + sr.len();
            assert(code[j] == seg[sl.len() + sr.len() as int]);
            assert(code[j] == op_instr(e));
            assert(st2.len() >= 2);
            assert(st2.last() == vr);
            assert(st2[st2.len() - 2] == vl);
            assert(st2.subrange(0, st2.len() - 2) =~= stack);
            if vl is Number && vr is Number {
                assert(st2.subrange(0, st2.len() - 2).push(
                    crate::vm::bin_op_value(
                        op_instr(e),
                        st2[st2.len() - 2]->Number_0,
                        st2.last()->Number_0,
                    ),
                ) =~= stack.push(eval_value(e)->Some_0));
            }
            assert(seg.len() == sl.len() + sr.len() + 1);
        }
    }
}

/// The virtual machine computes an expression's chunk — its code
/// followed by a return, over a pool of its literals — to exactly the
/// expression's meaning, whatever the line table: where the expression
/// evaluates, execution succeeds and prints exactly its value; where an
/// arithmetic operator met a non-number, execution halts with a runtime
/// error and prints nothing.
pub proof fn lemma_expression_execution(e: Expr, lines: Seq<usize>)
    requires
        lits(e).len() <= usize::MAX,
    ensures
        ({
            let code = code_of(e, 0).push(OpCode::OpReturn);
            let constants = lits_values(e);
            let o = run_from(code, lines, constants, Seq::empty(), 0);
            &&& (eval_value(e) matches Some(v) ==> o.result == InterpretResult::Success
                && o.output == seq![value_text(v)] && o.stack == Seq::<Value>::empty()
                && o.diagnostics == Seq::<Seq<char>>::empty())
            &&& (eval_value(e) is None ==> o.result == InterpretResult::RuntimeError && o.output
                == Seq::<Seq<char>>::empty())
        }),
{
    let code = code_of(e, 0).push(OpCode::OpReturn);
    let constants = lits_values(e);
    assert(code.subrange(0, code_of(e, 0).len() as int) =~= code_of(e, 0));
    lemma_code_evaluates(e, code, lines, constants, Seq::empty(), 0, 0);
    if eval_value(e) is Some {
        let v = eval_value(e)->Some_0;
        let st = Seq::<Value>::empty().push(v);
        let j = code_of(e, 0).len() as int;
        assert(code[j] == OpCode::OpReturn);
        assert(st.len() > 0);
        assert(st.subrange(0, st.len() - 1) =~= Seq::<Value>::empty());
    }
}

} // verus!
