use clox::chunk::Chunk;
use clox::chunk::OpCode;
use clox::compile::Parser;
use clox::debug::disassemble_chunk;
use clox::value::Value;

#[test]
fn multiply_binds_tighter_than_add() {
    let mut parser = Parser::new("1 + 2 * 3");
    let chunk = parser.compile();
    assert!(!parser.had_error());
    let text = disassemble_chunk(&chunk, "test");
    let expected = "== test ==\n\
                    0000    1 OpConstant 0 '1'\n\
                    0002    | OpConstant 1 '2'\n\
                    0004    | OpConstant 2 '3'\n\
                    0006    | OpMultiply\n\
                    0007    | OpAdd\n\
                    0008    | OpReturn\n";
    assert_eq!(text, expected);
}

#[test]
fn grouping_overrides_precedence() {
    let mut parser = Parser::new("(1 + 2) * 3");
    let chunk = parser.compile();
    assert!(!parser.had_error());
    let text = disassemble_chunk(&chunk, "test");
    let expected = "== test ==\n\
                    0000    1 OpConstant 0 '1'\n\
                    0002    | OpConstant 1 '2'\n\
                    0004    | OpAdd\n\
                    0005    | OpConstant 2 '3'\n\
                    0007    | OpMultiply\n\
                    0008    | OpReturn\n";
    assert_eq!(text, expected);
}

#[test]
fn disassembly_is_identical_both_times() {
    let mut parser = Parser::new("1 + 2");
    let chunk = parser.compile();
    assert!(!parser.had_error());
    let first = disassemble_chunk(&chunk, "chunk");
    let second = disassemble_chunk(&chunk, "chunk");
    assert_eq!(first, second);
}

#[test]
fn equal_literals_get_distinct_slots() {
    let mut parser = Parser::new("1.2 + 1.2");
    let chunk = parser.compile();
    assert!(!parser.had_error());
    assert_eq!(chunk.constants.len(), 2);
    let expected = Value::Number(1.2f64.to_bits());
    assert_eq!(chunk.constants[0], expected);
    assert_eq!(chunk.constants[1], expected);
    assert_eq!(chunk.code[0], OpCode::OpConstant { index: 0 });
    assert_eq!(chunk.code[1], OpCode::OpConstant { index: 1 });
}

#[test]
fn left_associative_subtraction_code_shape() {
    let mut parser = Parser::new("1 - 2 - 3");
    let chunk = parser.compile();
    assert!(!parser.had_error());
    let ops: Vec<OpCode> = chunk.code.clone();
    assert_eq!(
        ops,
        vec![
            OpCode::OpConstant { index: 0 },
            OpCode::OpConstant { index: 1 },
            OpCode::OpSubtract,
            OpCode::OpConstant { index: 2 },
            OpCode::OpSubtract,
            OpCode::OpReturn,
        ]
    );
}

#[test]
fn unary_minus_emits_negate() {
    let mut parser = Parser::new("- -5");
    let chunk = parser.compile();
    assert!(!parser.had_error());
    let ops: Vec<OpCode> = chunk.code.clone();
    assert_eq!(
        ops,
        vec![
            OpCode::OpConstant { index: 0 },
            OpCode::OpNegate,
            OpCode::OpNegate,
            OpCode::OpReturn,
        ]
    );
    assert_eq!(chunk.constants[0], Value::Number(5.0f64.to_bits()));
}

#[test]
fn missing_expression_is_reported_at_operator() {
    let mut parser = Parser::new("+");
    parser.compile();
    assert!(parser.had_error());
    assert_eq!(parser.diagnostics.len(), 1);
    assert_eq!(parser.diagnostics[0], "[line 1] Error at '+': Expect expression.");
}

#[test]
fn unclosed_paren_is_reported_at_end() {
    let mut parser = Parser::new("(1");
    parser.compile();
    assert!(parser.had_error());
    assert_eq!(parser.diagnostics.len(), 1);
    assert_eq!(parser.diagnostics[0], "[line 1] Error at end: Expect ')' after expression.");
}

#[test]
fn trailing_tokens_are_reported() {
    let mut parser = Parser::new("1 2");
    parser.compile();
    assert!(parser.had_error());
    assert_eq!(parser.diagnostics.len(), 1);
    assert_eq!(parser.diagnostics[0], "[line 1] Error at '2': Expect end of expression.");
}

#[test]
fn unexpected_character_is_reported() {
    let mut parser = Parser::new("@");
    parser.compile();
    assert!(parser.had_error());
    assert_eq!(parser.diagnostics[0], "[line 1] Error: Unexpected character.");
}

#[test]
fn only_first_error_is_reported() {
    let mut parser = Parser::new("@ @ @");
    parser.compile();
    assert!(parser.had_error());
    assert_eq!(parser.diagnostics.len(), 1);
}

#[test]
fn operator_line_is_recorded() {
    let mut parser = Parser::new("1 +\n2");
    let chunk = parser.compile();
    assert!(!parser.had_error());
    // constants load on the lines of their literals, the add on the line
    // of its right operand's end, the return on the last line
    assert_eq!(chunk.lines, vec![1, 2, 2, 2]);
}

#[test]
fn disassembly_marks_repeated_lines_and_bad_indices() {
    let mut chunk = Chunk::new();
    chunk.write_chunk(OpCode::OpNil, 1);
    chunk.write_chunk(OpCode::OpNot, 1);
    chunk.write_chunk(OpCode::OpConstant { index: 5 }, 2);
    chunk.write_chunk(OpCode::OpReturn, 2);
    let text = disassemble_chunk(&chunk, "odd");
    let expected = "== odd ==\n\
                    0000    1 OpNil\n\
                    0001    | OpNot\n\
                    0002    2 OpConstant 5 '?'\n\
                    0004    | OpReturn\n";
    assert_eq!(text, expected);
}
