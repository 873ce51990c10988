use clox::chunk::Chunk;
use clox::chunk::OpCode;
use clox::value::Value;
use clox::vm::InterpretResult;
use clox::vm::Vm;

fn run_source(source: &str) -> (InterpretResult, Vec<String>, Vec<String>) {
    let mut vm = Vm::new();
    let result = vm.interpret_src(source);
    (result, vm.output, vm.diagnostics)
}

#[test]
fn negating_five_twice_prints_five() {
    let (result, output, _) = run_source("- -5");
    assert_eq!(result, InterpretResult::Success);
    assert_eq!(output, vec!["5"]);
}

#[test]
fn ten_divided_by_two_prints_five() {
    let (result, output, _) = run_source("10 / 2");
    assert_eq!(result, InterpretResult::Success);
    assert_eq!(output, vec!["5"]);
}

#[test]
fn unterminated_string_is_compile_error_and_nothing_runs() {
    let (result, output, diagnostics) = run_source("\"abc");
    assert_eq!(result, InterpretResult::CompileError);
    assert!(output.is_empty());
    assert_eq!(diagnostics, vec!["[line 1] Error: Unterminated string."]);
}

#[test]
fn adding_bool_and_number_is_runtime_error() {
    let mut chunk = Chunk::new();
    let idx = chunk.add_constant(Value::Number(1.0f64.to_bits()));
    chunk.write_chunk(OpCode::OpTrue, 1);
    chunk.write_chunk(OpCode::OpConstant { index: idx }, 1);
    chunk.write_chunk(OpCode::OpAdd, 1);
    chunk.write_chunk(OpCode::OpReturn, 1);
    let mut vm = Vm::new();
    vm.load_chunk(chunk);
    let result = vm.run();
    assert_eq!(result, InterpretResult::RuntimeError);
    assert!(vm.output.is_empty());
    assert_eq!(vm.diagnostics, vec!["Operands must be numbers.", "[line 1] in script."]);
}

#[test]
fn negating_nil_is_runtime_error() {
    let mut chunk = Chunk::new();
    chunk.write_chunk(OpCode::OpNil, 3);
    chunk.write_chunk(OpCode::OpNegate, 3);
    chunk.write_chunk(OpCode::OpReturn, 3);
    let mut vm = Vm::new();
    vm.load_chunk(chunk);
    let result = vm.run();
    assert_eq!(result, InterpretResult::RuntimeError);
    assert!(vm.output.is_empty());
    assert_eq!(vm.diagnostics, vec!["Operand must be a number.", "[line 3] in script."]);
}

#[test]
fn subtraction_is_left_associative() {
    let (result, output, _) = run_source("1 - 2 - 3");
    assert_eq!(result, InterpretResult::Success);
    assert_eq!(output, vec!["-4"]);
}

#[test]
fn products_evaluate_before_sums() {
    let (result, output, _) = run_source("2 * 3 + 4 * 5");
    assert_eq!(result, InterpretResult::Success);
    assert_eq!(output, vec!["26"]);
}

#[test]
fn grouped_sum_scales() {
    let (result, output, _) = run_source("(1 + 2) * 3");
    assert_eq!(result, InterpretResult::Success);
    assert_eq!(output, vec!["9"]);
}

#[test]
fn fractional_literal_round_trips() {
    let (result, output, _) = run_source("1.2");
    assert_eq!(result, InterpretResult::Success);
    assert_eq!(output, vec!["1.2"]);
}

#[test]
fn division_produces_fractions() {
    let (result, output, _) = run_source("3 / 2");
    assert_eq!(result, InterpretResult::Success);
    assert_eq!(output, vec!["1.5"]);
}

#[test]
fn rounded_double_addition() {
    let (result, output, _) = run_source("0.1 + 0.2");
    assert_eq!(result, InterpretResult::Success);
    assert_eq!(output, vec!["0.30000000000000004"]);
}

#[test]
fn nil_prints_its_marker() {
    let mut chunk = Chunk::new();
    chunk.write_chunk(OpCode::OpNil, 1);
    chunk.write_chunk(OpCode::OpReturn, 1);
    let mut vm = Vm::new();
    vm.load_chunk(chunk);
    assert_eq!(vm.run(), InterpretResult::Success);
    assert_eq!(vm.output, vec!["<nil>"]);
}

#[test]
fn logical_not_of_nil_is_true() {
    let mut chunk = Chunk::new();
    chunk.write_chunk(OpCode::OpNil, 1);
    chunk.write_chunk(OpCode::OpNot, 1);
    chunk.write_chunk(OpCode::OpReturn, 1);
    let mut vm = Vm::new();
    vm.load_chunk(chunk);
    assert_eq!(vm.run(), InterpretResult::Success);
    assert_eq!(vm.output, vec!["true"]);
}

#[test]
fn logical_not_of_zero_is_false() {
    let mut chunk = Chunk::new();
    let idx = chunk.add_constant(Value::Number(0.0f64.to_bits()));
    chunk.write_chunk(OpCode::OpConstant { index: idx }, 1);
    chunk.write_chunk(OpCode::OpNot, 1);
    chunk.write_chunk(OpCode::OpReturn, 1);
    let mut vm = Vm::new();
    vm.load_chunk(chunk);
    assert_eq!(vm.run(), InterpretResult::Success);
    assert_eq!(vm.output, vec!["false"]);
}

#[test]
fn equal_values_from_distinct_slots_compare_equal() {
    let mut chunk = Chunk::new();
    let i1 = chunk.add_constant(Value::Number(1.0f64.to_bits()));
    let i2 = chunk.add_constant(Value::Number(1.0f64.to_bits()));
    chunk.write_chunk(OpCode::OpConstant { index: i1 }, 1);
    chunk.write_chunk(OpCode::OpConstant { index: i2 }, 1);
    chunk.write_chunk(OpCode::OpEqual, 1);
    chunk.write_chunk(OpCode::OpReturn, 1);
    let mut vm = Vm::new();
    vm.load_chunk(chunk);
    assert_eq!(vm.run(), InterpretResult::Success);
    assert_eq!(vm.output, vec!["true"]);
}

#[test]
fn one_is_less_than_two() {
    let mut chunk = Chunk::new();
    let i1 = chunk.add_constant(Value::Number(1.0f64.to_bits()));
    let i2 = chunk.add_constant(Value::Number(2.0f64.to_bits()));
    chunk.write_chunk(OpCode::OpConstant { index: i1 }, 1);
    chunk.write_chunk(OpCode::OpConstant { index: i2 }, 1);
    chunk.write_chunk(OpCode::OpLess, 1);
    chunk.write_chunk(OpCode::OpReturn, 1);
    let mut vm = Vm::new();
    vm.load_chunk(chunk);
    assert_eq!(vm.run(), InterpretResult::Success);
    assert_eq!(vm.output, vec!["true"]);
}

#[test]
fn one_is_not_greater_than_two() {
    let mut chunk = Chunk::new();
    let i1 = chunk.add_constant(Value::Number(1.0f64.to_bits()));
    let i2 = chunk.add_constant(Value::Number(2.0f64.to_bits()));
    chunk.write_chunk(OpCode::OpConstant { index: i1 }, 1);
    chunk.write_chunk(OpCode::OpConstant { index: i2 }, 1);
    chunk.write_chunk(OpCode::OpGreater, 1);
    chunk.write_chunk(OpCode::OpReturn, 1);
    let mut vm = Vm::new();
    vm.load_chunk(chunk);
    assert_eq!(vm.run(), InterpretResult::Success);
    assert_eq!(vm.output, vec!["false"]);
}

#[test]
fn empty_chunk_is_malformed() {
    let mut vm = Vm::new();
    vm.load_chunk(Chunk::new());
    assert_eq!(vm.run(), InterpretResult::CompileError);
    assert!(vm.output.is_empty());
}

#[test]
fn popping_an_empty_stack_is_checked() {
    let mut chunk = Chunk::new();
    chunk.write_chunk(OpCode::OpAdd, 7);
    chunk.write_chunk(OpCode::OpReturn, 7);
    let mut vm = Vm::new();
    vm.load_chunk(chunk);
    assert_eq!(vm.run(), InterpretResult::RuntimeError);
    assert_eq!(vm.diagnostics, vec!["Stack underflow.", "[line 7] in script."]);
}

#[test]
fn falsiness_follows_the_value_domain() {
    assert!(Value::Nil.is_falsy());
    assert!(Value::Bool(false).is_falsy());
    assert!(!Value::Bool(true).is_falsy());
    assert!(!Value::Number(0.0f64.to_bits()).is_falsy());
}

#[test]
fn number_equality_is_double_equality() {
    let nan = Value::Number(f64::NAN.to_bits());
    assert!(!nan.equals(&nan));
    let pos_zero = Value::Number(0.0f64.to_bits());
    let neg_zero = Value::Number((-0.0f64).to_bits());
    assert!(pos_zero.equals(&neg_zero));
    assert!(!Value::Nil.equals(&pos_zero));
    assert!(Value::Bool(true).equals(&Value::Bool(true)));
}

#[test]
fn constant_load_outside_pool_is_checked() {
    let mut chunk = Chunk::new();
    chunk.write_chunk(OpCode::OpConstant { index: 3 }, 4);
    chunk.write_chunk(OpCode::OpReturn, 4);
    let mut vm = Vm::new();
    vm.load_chunk(chunk);
    assert_eq!(vm.run(), InterpretResult::RuntimeError);
    assert!(vm.output.is_empty());
    assert_eq!(vm.diagnostics, vec!["Invalid constant index.", "[line 4] in script."]);
}

#[test]
fn repl_style_runs_accumulate_output() {
    let mut vm = Vm::new();
    assert_eq!(vm.interpret_src("1 + 1"), InterpretResult::Success);
    assert_eq!(vm.interpret_src("2 + 2"), InterpretResult::Success);
    assert_eq!(vm.output, vec!["2", "4"]);
}

#[test]
fn adding_bool_and_number_from_source_is_runtime_error() {
    let (result, output, diagnostics) = run_source("true + 1");
    assert_eq!(result, InterpretResult::RuntimeError);
    assert!(output.is_empty());
    assert_eq!(diagnostics, vec!["Operands must be numbers.", "[line 1] in script."]);
}

#[test]
fn negating_a_boolean_from_source_is_runtime_error() {
    let (result, output, diagnostics) = run_source("-false");
    assert_eq!(result, InterpretResult::RuntimeError);
    assert!(output.is_empty());
    assert_eq!(diagnostics, vec!["Operand must be a number.", "[line 1] in script."]);
}

#[test]
fn literal_keywords_compile_and_print() {
    let (result, output, _) = run_source("true");
    assert_eq!(result, InterpretResult::Success);
    assert_eq!(output, vec!["true"]);
    let (result, output, _) = run_source("false");
    assert_eq!(result, InterpretResult::Success);
    assert_eq!(output, vec!["false"]);
    let (result, output, _) = run_source("nil");
    assert_eq!(result, InterpretResult::Success);
    assert_eq!(output, vec!["<nil>"]);
}

#[test]
fn grouped_boolean_still_fails_at_runtime() {
    let (result, output, _) = run_source("(nil) * 2");
    assert_eq!(result, InterpretResult::RuntimeError);
    assert!(output.is_empty());
}

#[test]
fn large_magnitudes_print_in_scientific_notation() {
    let (result, output, _) = run_source("100000");
    assert_eq!(result, InterpretResult::Success);
    assert_eq!(output, vec!["1.0E+5"]);
}
