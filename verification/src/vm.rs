//! The virtual machine: executes a chunk's instruction stream over an
//! operand stack, one instruction per step, with dynamic type checks.
//!
//! Printed results are collected in `output`, one entry per printed
//! line, and error reports in `diagnostics`; the caller does the actual
//! writing.  Popping from an empty stack and a constant load that points
//! outside the pool are malformed-bytecode conditions that cannot arise
//! from compiled chunks; they halt with a checked runtime error rather
//! than a crash.
use vstd::prelude::*;

use crate::chunk::Chunk;
use crate::chunk::OpCode;
use crate::compile::parse;
use crate::compile::parse_lines;
use crate::compile::scan_error_report;
use crate::compile::Parser;
use crate::scanner::spec_scan;
use crate::scanner::TokenType;
use crate::debug::print_value;
use crate::expr::code_of;
use crate::expr::eval_value;
use crate::expr::lemma_expression_execution;
use crate::expr::lits;
use crate::expr::lits_values;
use crate::debug::value_text;
use crate::num::add_bits;
use crate::num::div_bits;
use crate::num::lt_bits;
use crate::num::mul_bits;
use crate::num::neg_bits;
use crate::num::num_add;
use crate::num::num_div;
use crate::num::num_lt;
use crate::num::num_mul;
use crate::num::num_neg;
use crate::num::num_sub;
use crate::num::sub_bits;
use crate::text::dec_str;
use crate::text::usize_text;
use crate::value::falsy;
use crate::value::values_equal;
use crate::value::Value;

verus! {

pub struct Vm {
    chunk: Chunk,
    stack: Vec<Value>,
    ip: usize,
    /// What the program printed, one entry per line.
    pub output: Vec<String>,
    /// Error reports, one entry per line.
    pub diagnostics: Vec<String>,
}

#[derive(Debug, Clone, Copy, PartialEq, Eq, Structural)]
pub enum InterpretResult {
    Success,
    CompileError,
    RuntimeError,
}

enum BinaryOp {
    Add,
    Subtract,
    Multiply,
    Divide,
    Greater,
    Less,
}

/// Everything one execution determines: its result, the stack and
/// cursor it ends with, and what it printed and reported.
pub struct RunOutcome {
    pub result: InterpretResult,
    pub stack: Seq<Value>,
    pub ip: int,
    pub output: Seq<Seq<char>>,
    pub diagnostics: Seq<Seq<char>>,
}

/// The line recorded for an instruction, or zero outside the table.
pub open spec fn line_at(lines: Seq<usize>, ip: int) -> nat {
    if 0 <= ip < lines.len() {
        lines[ip] as nat
    } else {
        0
    }
}

/// A runtime error's report: the message, then the failing
/// instruction's source line.
pub open spec fn error_notes(msg: Seq<char>, lines: Seq<usize>, ip: int) -> Seq<Seq<char>> {
    seq![msg, "[line "@ + dec_str(line_at(lines, ip)) + "] in script."@]
}

/// Execution halted by a runtime error at the instruction at `ip`.
pub open spec fn halted(
    stack: Seq<Value>,
    ip: int,
    msg: Seq<char>,
    lines: Seq<usize>,
) -> RunOutcome {
    RunOutcome {
        result: InterpretResult::RuntimeError,
        stack,
        ip: ip + 1,
        output: Seq::empty(),
        diagnostics: error_notes(msg, lines, ip),
    }
}

/// What a binary operator pushes, given the left operand `b` (pushed
/// earlier, so deeper in the stack) and the right operand `a` (on top).
pub open spec fn bin_op_value(op: OpCode, b: u64, a: u64) -> Value {
    match op {
        OpCode::OpAdd => Value::Number(add_bits(b, a)),
        OpCode::OpSubtract => Value::Number(sub_bits(b, a)),
        OpCode::OpMultiply => Value::Number(mul_bits(b, a)),
        OpCode::OpDivide => Value::Number(div_bits(b, a)),
        OpCode::OpGreater => Value::Bool(lt_bits(a, b)),
        OpCode::OpLess => Value::Bool(lt_bits(b, a)),
        _ => Value::Nil,
    }
}

/// The meaning of executing a chunk from cursor `ip` with the given
/// stack: each instruction's effect, in order, until a return, a runtime
/// error, or the end of the stream (which is a malformed chunk and
/// surfaces as `CompileError`).
pub open spec fn run_from(
    code: Seq<OpCode>,
    lines: Seq<usize>,
    constants: Seq<Value>,
    stack: Seq<Value>,
    ip: int,
) -> RunOutcome
    decreases code.len() - ip,
{
    if 0 <= ip < code.len() {
        let op = code[ip];
        match op {
            OpCode::OpConstant { index } => {
                if index < constants.len() {
                    run_from(code, lines, constants, stack.push(constants[index as int]), ip + 1)
                } else {
                    halted(stack, ip, "Invalid constant index."@, lines)
                }
            },
            OpCode::OpNil => run_from(code, lines, constants, stack.push(Value::Nil), ip + 1),
            OpCode::OpTrue => run_from(
                code,
                lines,
                constants,
                stack.push(Value::Bool(true)),
                ip + 1,
            ),
            OpCode::OpFalse => run_from(
                code,
                lines,
                constants,
                stack.push(Value::Bool(false)),
                ip + 1,
            ),
            OpCode::OpReturn => {
                if stack.len() > 0 {
                    RunOutcome {
                        result: InterpretResult::Success,
                        stack: stack.subrange(0, stack.len() - 1),
                        ip: ip + 1,
                        output: seq![value_text(stack.last())],
                        diagnostics: Seq::empty(),
                    }
                } else {
                    halted(stack, ip, "Stack underflow."@, lines)
                }
            },
            OpCode::OpNegate => {
                if stack.len() == 0 {
                    halted(stack, ip, "Stack underflow."@, lines)
                } else if stack.last() is Number {
                    run_from(
                        code,
                        lines,
                        constants,
                        stack.subrange(0, stack.len() - 1).push(
                            Value::Number(neg_bits(stack.last()->Number_0)),
                        ),
                        ip + 1,
                    )
                } else {
                    halted(stack, ip, "Operand must be a number."@, lines)
                }
            },
            OpCode::OpNot => {
                if stack.len() == 0 {
                    halted(stack, ip, "Stack underflow."@, lines)
                } else {
                    run_from(
                        code,
                        lines,
                        constants,
                        stack.subrange(0, stack.len() - 1).push(Value::Bool(falsy(stack.last()))),
                        ip + 1,
                    )
                }
            },
            OpCode::OpEqual => {
                if stack.len() < 2 {
                    halted(stack, ip, "Stack underflow."@, lines)
                } else {
                    run_from(
                        code,
                        lines,
                        constants,
                        stack.subrange(0, stack.len() - 2).push(
                            Value::Bool(
                                values_equal(stack.last(), stack[stack.len() - 2]),
                            ),
                        ),
                        ip + 1,
                    )
                }
            },
            _ => {
                if stack.len() < 2 {
                    halted(stack, ip, "Stack underflow."@, lines)
                } else if stack.last() is Number && stack[stack.len() - 2] is Number {
                    run_from(
                        code,
                        lines,
                        constants,
                        stack.subrange(0, stack.len() - 2).push(
                            bin_op_value(op, stack[stack.len() - 2]->Number_0, stack.last()->Number_0),
                        ),
                        ip + 1,
                    )
                } else {
                    halted(stack, ip, "Operands must be numbers."@, lines)
                }
            },
        }
    } else {
        RunOutcome {
            result: InterpretResult::CompileError,
            stack,
            ip,
            output: Seq::empty(),
            diagnostics: Seq::empty(),
        }
    }
}

/// Nothing is printed unless execution reaches a return and succeeds:
/// only the return instruction prints, and it ends the run with `Ok`.
pub proof fn lemma_silent_unless_ok(
    code: Seq<OpCode>,
    lines: Seq<usize>,
    constants: Seq<Value>,
    stack: Seq<Value>,
    ip: int,
)
    ensures
        run_from(code, lines, constants, stack, ip).result != InterpretResult::Success ==> run_from(
            code,
            lines,
            constants,
            stack,
            ip,
        ).output == Seq::<Seq<char>>::empty(),
    decreases code.len() - ip,
{
    if 0 <= ip < code.len() {
        let op = code[ip];
        match op {
            OpCode::OpConstant { index } => {
                if index < constants.len() {
                    lemma_silent_unless_ok(
                        code,
                        lines,
                        constants,
                        stack.push(constants[index as int]),
                        ip + 1,
                    );
                }
            },
            OpCode::OpNil => {
                lemma_silent_unless_ok(code, lines, constants, stack.push(Value::Nil), ip + 1);
            },
            OpCode::OpTrue => {
                lemma_silent_unless_ok(
                    code,
                    lines,
                    constants,
                    stack.push(Value::Bool(true)),
                    ip + 1,
                );
            },
            OpCode::OpFalse => {
                lemma_silent_unless_ok(
                    code,
                    lines,
                    constants,
                    stack.push(Value::Bool(false)),
                    ip + 1,
                );
            },
            OpCode::OpReturn => {},
            OpCode::OpNegate => {
                if stack.len() > 0 && stack.last() is Number {
                    lemma_silent_unless_ok(
                        code,
                        lines,
                        constants,
                        stack.subrange(0, stack.len() - 1).push(
                            Value::Number(neg_bits(stack.last()->Number_0)),
                        ),
                        ip + 1,
                    );
                }
            },
            OpCode::OpNot => {
                if stack.len() > 0 {
                    lemma_silent_unless_ok(
                        code,
                        lines,
                        constants,
                        stack.subrange(0, stack.len() - 1).push(Value::Bool(falsy(stack.last()))),
                        ip + 1,
                    );
                }
            },
            OpCode::OpEqual => {
                if stack.len() >= 2 {
                    lemma_silent_unless_ok(
                        code,
                        lines,
                        constants,
                        stack.subrange(0, stack.len() - 2).push(
                            Value::Bool(
                                values_equal(stack.last(), stack[stack.len() - 2]),
                            ),
                        ),
                        ip + 1,
                    );
                }
            },
            _ => {
                if stack.len() >= 2 && stack.last() is Number && stack[stack.len() - 2]
                    is Number {
                    lemma_silent_unless_ok(
                        code,
                        lines,
                        constants,
                        stack.subrange(0, stack.len() - 2).push(
                            bin_op_value(op, stack[stack.len() - 2]->Number_0, stack.last()->Number_0),
                        ),
                        ip + 1,
                    );
                }
            },
        }
    }
}

impl Vm {
    pub closed spec fn spec_code(&self) -> Seq<OpCode> {
        self.chunk.code@
    }

    pub closed spec fn spec_lines(&self) -> Seq<usize> {
        self.chunk.lines@
    }

    pub closed spec fn spec_constants(&self) -> Seq<Value> {
        self.chunk.constants@
    }

    pub closed spec fn spec_stack(&self) -> Seq<Value> {
        self.stack@
    }

    pub closed spec fn spec_ip(&self) -> int {
        self.ip as int
    }

    pub closed spec fn spec_output(&self) -> Seq<Seq<char>> {
        self.output.deep_view()
    }

    pub closed spec fn spec_diagnostics(&self) -> Seq<Seq<char>> {
        self.diagnostics.deep_view()
    }

    pub fn new() -> (vm: Self)
        ensures
            vm.spec_code() == Seq::<OpCode>::empty(),
            vm.spec_lines() == Seq::<usize>::empty(),
            vm.spec_constants() == Seq::<Value>::empty(),
            vm.spec_stack() == Seq::<Value>::empty(),
            vm.spec_ip() == 0,
            vm.spec_output() == Seq::<Seq<char>>::empty(),
            vm.spec_diagnostics() == Seq::<Seq<char>>::empty(),
    {
        Self {
            chunk: Chunk::new(),
            stack: Vec::new(),
            ip: 0,
            output: Vec::new(),
            diagnostics: Vec::new(),
        }
    }

    /// Installs a finished chunk and rewinds: the cursor to the first
    /// instruction, the operand stack to empty.
    pub fn load_chunk(&mut self, chunk: Chunk)
        ensures
            final(self).spec_code() == chunk.code@,
            final(self).spec_lines() == chunk.lines@,
            final(self).spec_constants() == chunk.constants@,
            final(self).spec_stack() == Seq::<Value>::empty(),
            final(self).spec_ip() == 0,
            final(self).spec_output() == old(self).spec_output(),
            final(self).spec_diagnostics() == old(self).spec_diagnostics(),
    {
        self.chunk = chunk;
        self.ip = 0;
        self.stack = Vec::new();
    }

    /// Compiles one source unit and, only when compilation reported no
    /// error, executes the resulting chunk from a fresh stack.  A chunk
    /// compiled under an error is never executed, so a compile error
    /// leaves the program output untouched; compile diagnostics are
    /// appended to `diagnostics` either way.
    pub fn interpret_src(&mut self, source: &str) -> (r: InterpretResult)
        ensures
            r == InterpretResult::CompileError ==> final(self).spec_output() == old(self).spec_output(),
            r != InterpretResult::CompileError ==> ({
                let o = run_from(
                    final(self).spec_code(),
                    final(self).spec_lines(),
                    final(self).spec_constants(),
                    Seq::empty(),
                    0,
                );
                &&& r == o.result
                &&& final(self).spec_output() == old(self).spec_output() + o.output
                &&& final(self).spec_stack() == o.stack
                &&& final(self).spec_code().len() >= 1
                &&& final(self).spec_code().last() == OpCode::OpReturn
                &&& forall|i: int|
                    0 <= i < final(self).spec_code().len() ==> (#[trigger] final(self).spec_code()[
                        i
                    ] matches OpCode::OpConstant { index } ==> index < final(self).spec_constants().len())
            }),
            r == InterpretResult::CompileError <==> parse(source@) is None,
            parse(source@) matches Some(e) ==> ({
                &&& final(self).spec_code() == code_of(e, 0).push(OpCode::OpReturn)
                &&& final(self).spec_constants() == lits_values(e)
                &&& (eval_value(e) matches Some(v) ==> r == InterpretResult::Success && final(self).spec_output() == old(self).spec_output() + seq![value_text(v)] && final(self).spec_stack() == Seq::<Value>::empty())
                &&& (eval_value(e) is None ==> r == InterpretResult::RuntimeError && final(self).spec_output() == old(self).spec_output())
                &&& final(self).spec_lines() == parse_lines(source@)
            }),
            old(self).spec_diagnostics().is_prefix_of(final(self).spec_diagnostics()),
            spec_scan(source@, 0, 1).kind == TokenType::Error ==> final(self).spec_diagnostics()
                == old(self).spec_diagnostics().push(
                scan_error_report(source@, spec_scan(source@, 0, 1)),
            ),
    {
        let mut parser = Parser::new(source);
        let chunk = parser.compile();
        let pdiags = parser.take_diagnostics();
        let ghost diag0 = self.spec_diagnostics();
        let mut j: usize = 0;
        while j < pdiags.len()
            invariant
                j <= pdiags@.len(),
                self.spec_diagnostics() == diag0 + pdiags.deep_view().subrange(0, j as int),
                self.spec_output() == old(self).spec_output(),
                self.spec_stack() == old(self).spec_stack(),
                self.spec_code() == old(self).spec_code(),
                self.spec_lines() == old(self).spec_lines(),
                self.spec_constants() == old(self).spec_constants(),
                self.spec_ip() == old(self).spec_ip(),
            decreases pdiags@.len() - j,
        {
            let ghost before = self.spec_diagnostics();
            let d = pdiags[j].clone();
            self.diagnostics.push(d);
            proof {
                assert(self.spec_diagnostics() =~= before.push(pdiags.deep_view()[j as int]));
                assert(self.spec_diagnostics() =~= diag0 + pdiags.deep_view().subrange(
                    0,
                    j as int + 1,
                ));
            }
            j = j + 1;
        }
        proof {
            assert(diag0.is_prefix_of(self.spec_diagnostics())) by {
                assert(self.spec_diagnostics().subrange(0, diag0.len() as int) =~= diag0);
            }
            if spec_scan(source@, 0, 1).kind == TokenType::Error {
                assert(self.spec_diagnostics() =~= diag0.push(
                    scan_error_report(source@, spec_scan(source@, 0, 1)),
                ));
            }
        }
        if parser.had_error() {
            return InterpretResult::CompileError;
        }
        let ghost mid_diag = self.spec_diagnostics();
        self.chunk = chunk;
        self.ip = 0;
        self.stack = Vec::new();
        let n_constants = self.chunk.constants.len();
        let r = self.run();
        proof {
            let e = parse(source@)->Some_0;
            assert(self.spec_code() =~= code_of(e, 0).push(OpCode::OpReturn));
            assert(self.spec_constants() =~= lits_values(e));
            assert(self.spec_lines() =~= parse_lines(source@));
            assert(lits(e).len() == n_constants);
            lemma_expression_execution(e, self.spec_lines());
            if eval_value(e) is None {
                assert(old(self).spec_output() + Seq::<Seq<char>>::empty() =~= old(self).spec_output());
            }
            if r == InterpretResult::CompileError {
                lemma_silent_unless_ok(
                    self.spec_code(),
                    self.spec_lines(),
                    self.spec_constants(),
                    Seq::empty(),
                    0,
                );
                assert(old(self).spec_output() + Seq::<Seq<char>>::empty() =~= old(self).spec_output());
            }
            assert(mid_diag.is_prefix_of(self.spec_diagnostics())) by {
                assert(self.spec_diagnostics().subrange(0, mid_diag.len() as int) =~= mid_diag);
            }
            assert(diag0.is_prefix_of(self.spec_diagnostics())) by {
                assert(self.spec_diagnostics().subrange(0, diag0.len() as int) =~= diag0);
            }
        }
        r
    }

    /// Executes the installed chunk from the current cursor.  The
    /// result, the stack, and everything printed or reported are exactly
    /// what the execution model [`run_from`] gives for this chunk.
    pub fn run(&mut self) -> (r: InterpretResult)
        ensures
            ({
                let o = run_from(
                    old(self).spec_code(),
                    old(self).spec_lines(),
                    old(self).spec_constants(),
                    old(self).spec_stack(),
                    old(self).spec_ip(),
                );
                &&& r == o.result
                &&& final(self).spec_stack() == o.stack
                &&& final(self).spec_ip() == o.ip
                &&& final(self).spec_output() == old(self).spec_output() + o.output
                &&& final(self).spec_diagnostics() == old(self).spec_diagnostics()
                    + o.diagnostics
                &&& final(self).spec_code() == old(self).spec_code()
                &&& final(self).spec_lines() == old(self).spec_lines()
                &&& final(self).spec_constants() == old(self).spec_constants()
            }),
    {
        loop
            invariant
                self.spec_code() == old(self).spec_code(),
                self.spec_lines() == old(self).spec_lines(),
                self.spec_constants() == old(self).spec_constants(),
                ({
                    let o = run_from(
                        old(self).spec_code(),
                        old(self).spec_lines(),
                        old(self).spec_constants(),
                        old(self).spec_stack(),
                        old(self).spec_ip(),
                    );
                    let now = run_from(
                        self.spec_code(),
                        self.spec_lines(),
                        self.spec_constants(),
                        self.spec_stack(),
                        self.spec_ip(),
                    );
                    &&& o.result == now.result
                    &&& o.stack == now.stack
                    &&& o.ip == now.ip
                    &&& old(self).spec_output() + o.output == self.spec_output()
                        + now.output
                    &&& old(self).spec_diagnostics() + o.diagnostics
                        == self.spec_diagnostics() + now.diagnostics
                }),
            decreases self.spec_code().len() - self.spec_ip(),
        {
            let ghost now0 = run_from(
                self.spec_code(),
                self.spec_lines(),
                self.spec_constants(),
                self.spec_stack(),
                self.spec_ip(),
            );
            if self.ip >= self.chunk.code.len() {
                proof {
                    assert(now0.output =~= Seq::<Seq<char>>::empty());
                    assert(self.spec_output() + now0.output =~= self.spec_output());
                    assert(self.spec_diagnostics() + now0.diagnostics
                        =~= self.spec_diagnostics());
                }
                return InterpretResult::CompileError;
            }
            let cur = self.ip;
            let op = self.chunk.code[cur];
            self.ip = cur + 1;
            match op {
                OpCode::OpConstant { index } => {
                    if index < self.chunk.constants.len() {
                        let c = self.read_constant(index);
                        self.stack.push(c);
                    } else {
                        self.runtime_error("Invalid constant index.");
                        proof {
                            self.lemma_halt_accounting(now0);
                        }
                        return InterpretResult::RuntimeError;
                    }
                },
                OpCode::OpNil => {
                    self.stack.push(Value::Nil);
                },
                OpCode::OpTrue => {
                    self.stack.push(Value::Bool(true));
                },
                OpCode::OpFalse => {
                    self.stack.push(Value::Bool(false));
                },
                OpCode::OpReturn => {
                    if self.stack.len() == 0 {
                        self.runtime_error("Stack underflow.");
                        proof {
                            self.lemma_halt_accounting(now0);
                        }
                        return InterpretResult::RuntimeError;
                    }
                    let v = self.stack.pop().unwrap();
                    let line = print_value(&v);
                    let ghost out_before = self.spec_output();
                    self.output.push(line);
                    proof {
                        assert(self.spec_output() =~= out_before.push(value_text(v)));
                        assert(out_before + now0.output =~= self.spec_output());
                        assert(self.spec_diagnostics() + Seq::<Seq<char>>::empty()
                            =~= self.spec_diagnostics());
                    }
                    return InterpretResult::Success;
                },
                OpCode::OpNegate => {
                    if self.stack.len() == 0 {
                        self.runtime_error("Stack underflow.");
                        proof {
                            self.lemma_halt_accounting(now0);
                        }
                        return InterpretResult::RuntimeError;
                    }
                    let top = self.peek(0);
                    match top {
                        Value::Number(n) => {
                            self.stack.pop();
                            self.stack.push(Value::Number(num_neg(n)));
                        },
                        _ => {
                            self.runtime_error("Operand must be a number.");
                            proof {
                                self.lemma_halt_accounting(now0);
                            }
                            return InterpretResult::RuntimeError;
                        },
                    }
                },
                OpCode::OpNot => {
                    if self.stack.len() == 0 {
                        self.runtime_error("Stack underflow.");
                        proof {
                            self.lemma_halt_accounting(now0);
                        }
                        return InterpretResult::RuntimeError;
                    }
                    let v = self.stack.pop().unwrap();
                    self.stack.push(Value::Bool(v.is_falsy()));
                },
                OpCode::OpEqual => {
                    if self.stack.len() < 2 {
                        self.runtime_error("Stack underflow.");
                        proof {
                            self.lemma_halt_accounting(now0);
                        }
                        return InterpretResult::RuntimeError;
                    }
                    let ghost st = self.spec_stack();
                    let a = self.stack.pop().unwrap();
                    let b = self.stack.pop().unwrap();
                    self.stack.push(Value::Bool(a.equals(&b)));
                    proof {
                        assert(self.spec_stack() =~= st.subrange(0, st.len() - 2).push(
                            Value::Bool(values_equal(st.last(), st[st.len() - 2])),
                        ));
                    }
                },
                OpCode::OpAdd => {
                    let r = self.step_binary(BinaryOp::Add, Ghost(now0));
                    if let Some(result) = r {
                        return result;
                    }
                },
                OpCode::OpSubtract => {
                    let r = self.step_binary(BinaryOp::Subtract, Ghost(now0));
                    if let Some(result) = r {
                        return result;
                    }
                },
                OpCode::OpMultiply => {
                    let r = self.step_binary(BinaryOp::Multiply, Ghost(now0));
                    if let Some(result) = r {
                        return result;
                    }
                },
                OpCode::OpDivide => {
                    let r = self.step_binary(BinaryOp::Divide, Ghost(now0));
                    if let Some(result) = r {
                        return result;
                    }
                },
                OpCode::OpGreater => {
                    let r = self.step_binary(BinaryOp::Greater, Ghost(now0));
                    if let Some(result) = r {
                        return result;
                    }
                },
                OpCode::OpLess => {
                    let r = self.step_binary(BinaryOp::Less, Ghost(now0));
                    if let Some(result) = r {
                        return result;
                    }
                },
            }
        }
    }

    /// Ties one halting step to the surrounding accounting of output and
    /// diagnostics.
    proof fn lemma_halt_accounting(&self, now0: RunOutcome)
        requires
            now0.output == Seq::<Seq<char>>::empty(),
        ensures
            self.spec_output() + now0.output == self.spec_output(),
    {
        assert(self.spec_output() + now0.output =~= self.spec_output());
    }

    /// The shared checked step of the six binary operators: both of the
    /// top two slots must be numbers, checked without popping; on
    /// success both are replaced by the operator's result.
    fn step_binary(&mut self, op: BinaryOp, Ghost(now0): Ghost<RunOutcome>) -> (r: Option<
        InterpretResult,
    >)
        requires
            old(self).spec_ip() >= 1,
            old(self).spec_ip() - 1 < old(self).spec_code().len(),
            old(self).spec_code()[old(self).spec_ip() - 1] == op_of(op),
            now0 == run_from(
                old(self).spec_code(),
                old(self).spec_lines(),
                old(self).spec_constants(),
                old(self).spec_stack(),
                old(self).spec_ip() - 1,
            ),
        ensures
            final(self).spec_code() == old(self).spec_code(),
            final(self).spec_lines() == old(self).spec_lines(),
            final(self).spec_constants() == old(self).spec_constants(),
            final(self).spec_ip() == old(self).spec_ip(),
            final(self).spec_output() == old(self).spec_output(),
            r matches Some(result) ==> ({
                &&& result == now0.result
                &&& final(self).spec_stack() == now0.stack
                &&& final(self).spec_ip() == now0.ip
                &&& final(self).spec_output() + now0.output == final(self).spec_output()
                &&& old(self).spec_diagnostics() + now0.diagnostics
                    == final(self).spec_diagnostics()
            }),
            r is None ==> ({
                &&& final(self).spec_diagnostics() == old(self).spec_diagnostics()
                &&& now0 == run_from(
                    final(self).spec_code(),
                    final(self).spec_lines(),
                    final(self).spec_constants(),
                    final(self).spec_stack(),
                    final(self).spec_ip(),
                )
            }),
    {
        if self.stack.len() < 2 {
            self.runtime_error("Stack underflow.");
            return Some(InterpretResult::RuntimeError);
        }
        let a_is = self.peek(0).is_number();
        let b_is = self.peek(1).is_number();
        if !a_is || !b_is {
            self.runtime_error("Operands must be numbers.");
            return Some(InterpretResult::RuntimeError);
        }
        let ghost st = self.spec_stack();
        let a = self.stack.pop().unwrap();
        let b = self.stack.pop().unwrap();
        match (a, b) {
            (Value::Number(x), Value::Number(y)) => {
                let v = match op {
                    BinaryOp::Add => Value::Number(num_add(y, x)),
                    BinaryOp::Subtract => Value::Number(num_sub(y, x)),
                    BinaryOp::Multiply => Value::Number(num_mul(y, x)),
                    BinaryOp::Divide => Value::Number(num_div(y, x)),
                    BinaryOp::Greater => Value::Bool(num_lt(x, y)),
                    BinaryOp::Less => Value::Bool(num_lt(y, x)),
                };
                self.stack.push(v);
                proof {
                    assert(self.spec_stack() =~= st.subrange(0, st.len() - 2).push(
                        bin_op_value(op_of(op), st[st.len() - 2]->Number_0, st.last()->Number_0),
                    ));
                }
                None
            },
            _ => {
                proof {
                    assert(false);
                }
                None
            },
        }
    }

    fn peek(&self, distance: usize) -> (v: Value)
        requires
            distance < self.spec_stack().len(),
        ensures
            v == self.spec_stack()[self.spec_stack().len() - 1 - distance],
    {
        self.stack[self.stack.len() - distance - 1]
    }

    fn read_constant(&self, index: usize) -> (v: Value)
        requires
            index < self.spec_constants().len(),
        ensures
            v == self.spec_constants()[index as int],
    {
        self.chunk.constants[index]
    }

    /// Reports a runtime error: the message, then the line of the
    /// instruction the cursor has just passed.
    fn runtime_error(&mut self, message: &str)
        requires
            old(self).spec_ip() >= 1,
        ensures
            final(self).spec_code() == old(self).spec_code(),
            final(self).spec_lines() == old(self).spec_lines(),
            final(self).spec_constants() == old(self).spec_constants(),
            final(self).spec_stack() == old(self).spec_stack(),
            final(self).spec_ip() == old(self).spec_ip(),
            final(self).spec_output() == old(self).spec_output(),
            final(self).spec_diagnostics() == old(self).spec_diagnostics() + error_notes(
                message@,
                old(self).spec_lines(),
                old(self).spec_ip() - 1,
            ),
    {
        let ghost before = self.spec_diagnostics();
        self.diagnostics.push(String::from_str(message));
        let idx = self.ip - 1;
        let line: usize = if idx < self.chunk.lines.len() {
            self.chunk.lines[idx]
        } else {
            0
        };
        let mut s = String::from_str("[line ");
        let line_text = usize_text(line);
        s.append(line_text.as_str());
        s.append("] in script.");
        self.diagnostics.push(s);
        proof {
            assert(self.spec_diagnostics() =~= before + error_notes(
                message@,
                self.spec_lines(),
                self.spec_ip() - 1,
            ));
        }
    }
}

/// The instruction that a binary operator stands for.
spec fn op_of(op: BinaryOp) -> OpCode {
    match op {
        BinaryOp::Add => OpCode::OpAdd,
        BinaryOp::Subtract => OpCode::OpSubtract,
        BinaryOp::Multiply => OpCode::OpMultiply,
        BinaryOp::Divide => OpCode::OpDivide,
        BinaryOp::Greater => OpCode::OpGreater,
        BinaryOp::Less => OpCode::OpLess,
    }
}

} // verus!
