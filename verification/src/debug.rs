//! The disassembler: a pure formatter that renders a chunk as text.
//! Nothing here mutates state; the rendering is a function of the chunk
//! alone, so disassembling twice gives identical text.
use vstd::prelude::*;

use crate::chunk::Chunk;
use crate::chunk::OpCode;
use crate::num::number_text;
use crate::text::dec_str;
use crate::text::pad_left;
use crate::text::pad_left_text;
use crate::text::usize_text;
use crate::value::Value;

verus! {

/// The printed form of a value.
pub open spec fn value_text(v: Value) -> Seq<char> {
    match v {
        Value::Bool(b) => if b {
            "true"@
        } else {
            "false"@
        },
        Value::Nil => "<nil>"@,
        Value::Number(bits) => number_text(bits),
    }
}

/// How far an instruction advances the printed offset counter.
pub open spec fn op_delta(op: OpCode) -> int {
    if op is OpConstant {
        2
    } else {
        1
    }
}

/// An instruction's mnemonic.
pub open spec fn instr_name(op: OpCode) -> Seq<char> {
    match op {
        OpCode::OpConstant { .. } => "OpConstant"@,
        OpCode::OpNil => "OpNil"@,
        OpCode::OpTrue => "OpTrue"@,
        OpCode::OpFalse => "OpFalse"@,
        OpCode::OpNegate => "OpNegate"@,
        OpCode::OpReturn => "OpReturn"@,
        OpCode::OpAdd => "OpAdd"@,
        OpCode::OpSubtract => "OpSubtract"@,
        OpCode::OpMultiply => "OpMultiply"@,
        OpCode::OpDivide => "OpDivide"@,
        OpCode::OpNot => "OpNot"@,
        OpCode::OpEqual => "OpEqual"@,
        OpCode::OpGreater => "OpGreater"@,
        OpCode::OpLess => "OpLess"@,
    }
}

/// The pool value an instruction resolves to, or a placeholder when a
/// hand-built chunk points outside the pool.
pub open spec fn constant_text(constants: Seq<Value>, index: int) -> Seq<char> {
    if 0 <= index < constants.len() {
        value_text(constants[index])
    } else {
        "?"@
    }
}

/// The text after the offset and line columns: the mnemonic, and for a
/// constant load its pool index and the quoted resolved value.
pub open spec fn instr_body_text(op: OpCode, constants: Seq<Value>) -> Seq<char> {
    match op {
        OpCode::OpConstant { index } => instr_name(op) + " "@ + dec_str(index as nat) + " '"@
            + constant_text(constants, index as int) + "'\n"@,
        _ => instr_name(op) + "\n"@,
    }
}

/// The source-line column: the line right-aligned to four characters, or
/// a continuation marker when it repeats the previous instruction's line.
pub open spec fn line_col_text(line: usize, prev: Option<usize>) -> Seq<char> {
    if prev == Some(line) {
        "   |"@
    } else {
        pad_left(dec_str(line as nat), 4, ' ')
    }
}

/// One rendered instruction line.
pub open spec fn instr_text(
    op: OpCode,
    line: usize,
    prev: Option<usize>,
    offset: int,
    constants: Seq<Value>,
) -> Seq<char> {
    pad_left(dec_str(offset as nat), 4, '0') + " "@ + line_col_text(line, prev) + " "@
        + instr_body_text(op, constants)
}

/// The rendering of all instructions from position `i` on, walking the
/// instruction and line sequences together.
pub open spec fn disasm_from(
    code: Seq<OpCode>,
    lines: Seq<usize>,
    constants: Seq<Value>,
    i: int,
    offset: int,
    prev: Option<usize>,
) -> Seq<char>
    decreases code.len() - i,
{
    if 0 <= i < code.len() && i < lines.len() {
        instr_text(code[i], lines[i], prev, offset, constants) + disasm_from(
            code,
            lines,
            constants,
            i + 1,
            offset + op_delta(code[i]),
            Some(lines[i]),
        )
    } else {
        Seq::empty()
    }
}

/// The complete rendering: a header naming the chunk, then the lines.
pub open spec fn chunk_text(
    code: Seq<OpCode>,
    lines: Seq<usize>,
    constants: Seq<Value>,
    name: Seq<char>,
) -> Seq<char> {
    "== "@ + name + " ==\n"@ + disasm_from(code, lines, constants, 0, 0, None)
}

/// Disassembling is deterministic: any two renderings of one chunk under
/// one name are the same text, character for character.
pub proof fn lemma_disassembly_idempotent(c1: Seq<char>, c2: Seq<char>, chunk: Chunk, name: Seq<char>)
    requires
        c1 == chunk_text(chunk.code@, chunk.lines@, chunk.constants@, name),
        c2 == chunk_text(chunk.code@, chunk.lines@, chunk.constants@, name),
    ensures
        c1 == c2,
{
}

/// Renders a value for printing.
pub fn print_value(value: &Value) -> (s: String)
    ensures
        s@ == value_text(*value),
{
    match value {
        Value::Bool(b) => {
            if *b {
                String::from_str("true")
            } else {
                String::from_str("false")
            }
        },
        Value::Nil => String::from_str("<nil>"),
        Value::Number(bits) => crate::num::num_to_text(*bits),
    }
}

fn op_name(op: &OpCode) -> (s: &'static str)
    ensures
        s@ == instr_name(*op),
{
    match op {
        OpCode::OpConstant { .. } => "OpConstant",
        OpCode::OpNil => "OpNil",
        OpCode::OpTrue => "OpTrue",
        OpCode::OpFalse => "OpFalse",
        OpCode::OpNegate => "OpNegate",
        OpCode::OpReturn => "OpReturn",
        OpCode::OpAdd => "OpAdd",
        OpCode::OpSubtract => "OpSubtract",
        OpCode::OpMultiply => "OpMultiply",
        OpCode::OpDivide => "OpDivide",
        OpCode::OpNot => "OpNot",
        OpCode::OpEqual => "OpEqual",
        OpCode::OpGreater => "OpGreater",
        OpCode::OpLess => "OpLess",
    }
}

/// The mnemonic alone, for instructions without an operand, and the next
/// offset.
fn simple_instruction(name: &str, offset: usize) -> (r: (String, usize))
    requires
        offset < usize::MAX,
    ensures
        r.0@ == name@ + "\n"@,
        r.1 == offset + 1,
{
    let mut s = String::from_str(name);
    s.append("\n");
    (s, offset + 1)
}

/// The mnemonic, pool index and quoted resolved value of a constant
/// load, and the next offset.
fn constant_instruction(name: &str, chunk: &Chunk, index: usize, offset: usize) -> (r: (
    String,
    usize,
))
    requires
        offset + 2 <= usize::MAX,
    ensures
        r.0@ == name@ + " "@ + dec_str(index as nat) + " '"@ + constant_text(
            chunk.constants@,
            index as int,
        ) + "'\n"@,
        r.1 == offset + 2,
{
    let mut s = String::from_str(name);
    s.append(" ");
    let idx_text = usize_text(index);
    s.append(idx_text.as_str());
    s.append(" '");
    if index < chunk.constants.len() {
        let v = print_value(&chunk.constants[index]);
        s.append(v.as_str());
    } else {
        s.append("?");
    }
    s.append("'\n");
    (s, offset + 2)
}

/// One instruction's full rendered line and the next offset.
fn disassemble_instruction(
    chunk: &Chunk,
    c: &OpCode,
    offset: usize,
    line: usize,
    prev_line: &Option<usize>,
) -> (r: (String, usize))
    requires
        offset + 2 <= usize::MAX,
    ensures
        r.0@ == instr_text(*c, line, *prev_line, offset as int, chunk.constants@),
        r.1 == offset + op_delta(*c),
{
    proof {
        reveal_strlit("0");
        reveal_strlit(" ");
    }
    let offset_text = usize_text(offset);
    let mut s = pad_left_text(offset_text.as_str(), 4, "0");
    s.append(" ");
    match prev_line {
        Some(p) if *p == line => {
            s.append("   |");
        },
        _ => {
            let line_text = usize_text(line);
            let padded = pad_left_text(line_text.as_str(), 4, " ");
            s.append(padded.as_str());
        },
    }
    s.append(" ");
    let name = op_name(c);
    let (body, next) = match c {
        OpCode::OpConstant { index } => constant_instruction(name, chunk, *index, offset),
        _ => simple_instruction(name, offset),
    };
    s.append(body.as_str());
    (s, next)
}

/// Renders the whole chunk under a header naming it.
pub fn disassemble_chunk(chunk: &Chunk, name: &str) -> (s: String)
    requires
        chunk.code@.len() < 0x4000_0000,
    ensures
        s@ == chunk_text(chunk.code@, chunk.lines@, chunk.constants@, name@),
{
    let mut s = String::from_str("== ");
    s.append(name);
    s.append(" ==\n");
    let mut i: usize = 0;
    let mut offset: usize = 0;
    let mut prev_line: Option<usize> = None;
    let n = if chunk.code.len() < chunk.lines.len() {
        chunk.code.len()
    } else {
        chunk.lines.len()
    };
    while i < n
        invariant
            n <= chunk.code@.len(),
            n <= chunk.lines@.len(),
            n == vstd::math::min(chunk.code@.len() as int, chunk.lines@.len() as int),
            chunk.code@.len() < 0x4000_0000,
            i <= n,
            offset <= 2 * i,
            s@ + disasm_from(chunk.code@, chunk.lines@, chunk.constants@, i as int, offset as int, prev_line)
                == chunk_text(chunk.code@, chunk.lines@, chunk.constants@, name@),
        decreases n - i,
    {
        let op = chunk.code[i];
        let line = chunk.lines[i];
        let ghost s_before = s@;
        let ghost rest = disasm_from(
            chunk.code@,
            chunk.lines@,
            chunk.constants@,
            i as int,
            offset as int,
            prev_line,
        );
        let (text, next_offset) = disassemble_instruction(chunk, &op, offset, line, &prev_line);
        s.append(text.as_str());
        proof {
            assert(rest == text@ + disasm_from(
                chunk.code@,
                chunk.lines@,
                chunk.constants@,
                i as int + 1,
                next_offset as int,
                Some(line),
            ));
            assert((s_before + text@) + disasm_from(
                chunk.code@,
                chunk.lines@,
                chunk.constants@,
                i as int + 1,
                next_offset as int,
                Some(line),
            ) =~= s_before + rest);
        }
        prev_line = Some(line);
        offset = next_offset;
        i = i + 1;
    }
    proof {
        assert(disasm_from(
            chunk.code@,
            chunk.lines@,
            chunk.constants@,
            i as int,
            offset as int,
            prev_line,
        ) == Seq::<char>::empty());
        assert(s@ + Seq::<char>::empty() =~= s@);
    }
    s
}

} // verus!
