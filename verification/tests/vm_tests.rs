use lox_core::chunk::{Chunk, OpCode};
use lox_core::disasm::DisasmEntry;
use lox_core::stack::{Stack, STACK_SIZE};
use lox_core::token::TokenType;
use lox_core::trace::TraceEvent;
use lox_core::value::Value;
use lox_core::vm::{VM, VM_Errors};

#[test]
fn round_trip_constant_load() {
    // for a numeric value v: appendConstant(v) then appendReturn() yields v
    // as the result, and with debug on exactly one stack entry equal to v is
    // rendered immediately before the final return
    let v = Value::Num(1.2f64.to_bits());
    let mut c = Chunk::new();
    c.push_constant(v);
    c.push_op(OpCode::OpReturn);
    let mut vm = VM::new(true);
    let res = vm.interpret_chunk(c);
    assert!(res.is_ok());
    assert_eq!(
        vm.output,
        vec![
            TraceEvent::Instruction { entry: DisasmEntry::Constant { offset: 0, value: v } },
            TraceEvent::StackValue { value: v },
            TraceEvent::Instruction { entry: DisasmEntry::Return { offset: 2 } },
            TraceEvent::Returned { value: v },
        ]
    );
}

#[test]
fn round_trip_without_debug_reports_only_the_result() {
    let v = Value::Num(42);
    let mut c = Chunk::new();
    c.push_constant(v);
    c.push_op(OpCode::OpReturn);
    let mut vm = VM::new(false);
    let res = vm.interpret_chunk(c);
    assert!(res.is_ok());
    assert_eq!(vm.output, vec![TraceEvent::Returned { value: v }]);
}

#[test]
fn running_off_the_end_is_a_runtime_error() {
    let mut vm = VM::new(false);
    let res = vm.interpret_chunk(Chunk::new());
    assert_eq!(res, Err(VM_Errors::RuntimeError));
}

#[test]
fn stack_underflow_is_a_runtime_error() {
    let mut c = Chunk::new();
    c.push_op(OpCode::OpReturn);
    let mut vm = VM::new(false);
    let res = vm.interpret_chunk(c);
    assert_eq!(res, Err(VM_Errors::RuntimeError));
}

#[test]
fn stack_overflow_is_a_runtime_error() {
    let mut c = Chunk::new();
    for i in 0..(STACK_SIZE + 1) {
        c.push_constant(Value::Num(i as u64));
    }
    c.push_op(OpCode::OpReturn);
    let mut vm = VM::new(false);
    let res = vm.interpret_chunk(c);
    assert_eq!(res, Err(VM_Errors::RuntimeError));
}

#[test]
fn orphan_operand_slot_is_a_runtime_error() {
    let c = Chunk { code: vec![OpCode::ConstantIdx(0)], constants: vec![] };
    let mut vm = VM::new(false);
    let res = vm.interpret_chunk(c);
    assert_eq!(res, Err(VM_Errors::RuntimeError));
}

#[test]
fn interpret_reports_tokens_then_runtime_error() {
    // the compilation stage only drains and classifies tokens; with no chunk
    // bound, running afterwards reports a runtime error
    let mut vm = VM::new(false);
    let res = vm.interpret("1+2\0".to_string());
    assert_eq!(res, Err(VM_Errors::RuntimeError));
    let kinds: Vec<TokenType> = vm
        .output
        .iter()
        .map(|e| match e {
            TraceEvent::TokenLine { token, .. } => token.variant,
            _ => panic!("only token events expected"),
        })
        .collect();
    assert_eq!(
        kinds,
        vec![TokenType::Number, TokenType::Plus, TokenType::Number, TokenType::Eof]
    );
}

#[test]
fn interpret_lexical_error_is_a_compile_error() {
    let mut vm = VM::new(false);
    let res = vm.interpret("@\0".to_string());
    assert_eq!(res, Err(VM_Errors::CompileError));
    match vm.output.last() {
        Some(TraceEvent::TokenLine { token, .. }) => {
            assert_eq!(token.variant, TokenType::Error);
            assert_eq!(token.message, "Unexpected character.");
            assert_eq!(token.line, 1);
        },
        other => panic!("expected a token event, got {:?}", other),
    }
}

#[test]
fn interpret_unterminated_string_is_a_compile_error() {
    let mut vm = VM::new(false);
    let res = vm.interpret("\"abc\0".to_string());
    assert_eq!(res, Err(VM_Errors::CompileError));
    match vm.output.last() {
        Some(TraceEvent::TokenLine { token, .. }) => {
            assert_eq!(token.variant, TokenType::Error);
            assert_eq!(token.message, "Unterminated String");
        },
        other => panic!("expected a token event, got {:?}", other),
    }
}

#[test]
fn token_events_mark_the_first_token_of_each_line() {
    let mut vm = VM::new(false);
    vm.interpret("1\n2 3\0".to_string()).unwrap_err();
    let marks: Vec<(bool, usize)> = vm
        .output
        .iter()
        .map(|e| match e {
            TraceEvent::TokenLine { first, token } => (*first, token.line),
            _ => panic!("only token events expected"),
        })
        .collect();
    assert_eq!(marks, vec![(true, 1), (true, 2), (false, 2), (false, 2)]);
}

#[test]
fn interpret_reseeds_the_scanner_each_call() {
    let mut vm = VM::new(false);
    vm.interpret("var x\n;\0".to_string()).unwrap_err();
    vm.output.clear();
    vm.interpret("nil\0".to_string()).unwrap_err();
    let tokens: Vec<(TokenType, usize, usize)> = vm
        .output
        .iter()
        .map(|e| match e {
            TraceEvent::TokenLine { token, .. } => (token.variant, token.start, token.line),
            _ => panic!("only token events expected"),
        })
        .collect();
    assert_eq!(
        tokens,
        vec![(TokenType::Nil, 0, 1), (TokenType::Eof, 3, 1)]
    );
}

#[test]
fn stack_push_pop() {
    let mut s = Stack::new();
    s.push(Value::Num(1));
    s.push(Value::Num(2));
    assert_eq!(s.pop(), Value::Num(2));
    assert_eq!(s.pop(), Value::Num(1));
}

#[test]
fn value_default_is_numeric_zero() {
    assert_eq!(Value::default(), Value::Num(0));
    assert_eq!(Value::default(), Value::Num(0.0f64.to_bits()));
}
