use lox_core::chunk::{Chunk, OpCode};
use lox_core::disasm::{
    disassemble, disassemble_instruction, render_constant_line, render_header, render_offset,
    render_return_line, DisasmEntry,
};
use lox_core::value::Value;

#[test]
fn build_and_read_back_constant() {
    let mut c = Chunk::new();
    c.push_constant(Value::Num(1.2f64.to_bits()));
    c.push_op(OpCode::OpReturn);
    assert_eq!(c.get_constant(0), Value::Num(1.2f64.to_bits()));
}

#[test]
fn add_constant_returns_fresh_indices() {
    let mut c = Chunk::new();
    c.push_constant(Value::Num(1));
    c.push_constant(Value::Num(2));
    assert_eq!(c.get_constant(0), Value::Num(1));
    assert_eq!(c.get_constant(2), Value::Num(2));
}

#[test]
fn disassemble_structure() {
    let mut c = Chunk::new();
    let v = Value::Num(1.2f64.to_bits());
    c.push_constant(v);
    c.push_op(OpCode::OpReturn);
    let entries = disassemble(&c);
    assert_eq!(
        entries,
        vec![
            DisasmEntry::Constant { offset: 0, value: v },
            DisasmEntry::Return { offset: 2 },
        ]
    );
}

#[test]
fn disassemble_instruction_slot_counts() {
    let mut c = Chunk::new();
    c.push_constant(Value::Num(7));
    c.push_op(OpCode::OpReturn);
    let (first, consumed_first) = disassemble_instruction(&c, 0);
    assert_eq!(first, DisasmEntry::Constant { offset: 0, value: Value::Num(7) });
    assert_eq!(consumed_first, 2);
    let (second, consumed_second) = disassemble_instruction(&c, 2);
    assert_eq!(second, DisasmEntry::Return { offset: 2 });
    assert_eq!(consumed_second, 1);
}

#[test]
fn disassemble_reports_orphan_operand_slot() {
    let c = Chunk { code: vec![OpCode::ConstantIdx(0)], constants: vec![] };
    let entries = disassemble(&c);
    assert_eq!(entries, vec![DisasmEntry::Corrupt { offset: 0 }]);
}

#[test]
fn disassemble_reports_missing_operand_slot() {
    let c = Chunk { code: vec![OpCode::OpConstant], constants: vec![] };
    let entries = disassemble(&c);
    assert_eq!(entries, vec![DisasmEntry::Corrupt { offset: 0 }]);
}

#[test]
fn disassembly_format() {
    // one constant 1.2 and one return: offsets 0000 and 0002, the operand
    // slot counted into the second offset
    let mut c = Chunk::new();
    let v = 1.2f64;
    c.push_constant(Value::Num(v.to_bits()));
    c.push_op(OpCode::OpReturn);
    let entries = disassemble(&c);
    assert_eq!(entries.len(), 2);
    let first = match entries[0] {
        DisasmEntry::Constant { offset, value: Value::Num(bits) } => {
            render_constant_line(offset, &format!("{}", f64::from_bits(bits)))
        },
        _ => panic!("expected a constant load at offset 0"),
    };
    assert_eq!(first, format!("{:04} {:10} {:16}", 0, "OP_CONSTANT", 1.2));
    assert_eq!(first, "0000 OP_CONSTANT              1.2");
    let second = match entries[1] {
        DisasmEntry::Return { offset } => render_return_line(offset),
        _ => panic!("expected a return at offset 2"),
    };
    assert_eq!(second, format!("{:04} {}", 2, "OP_RETURN"));
    assert_eq!(second, "0002 OP_RETURN");
}

#[test]
fn offsets_render_zero_padded() {
    assert_eq!(render_offset(0), "0000");
    assert_eq!(render_offset(2), "0002");
    assert_eq!(render_offset(123), "0123");
    assert_eq!(render_offset(12345), "12345");
}

#[test]
fn header_renders_name() {
    assert_eq!(render_header("main"), "====main====");
}
