use lmc::instruction::{
    inst_into_value, value_into_inst, Inst, OpCode, Operand, OperandParseError, OperandValue, Value,
};
use lmc::text::IntErrorKind;

#[test]
fn value_text_round_trip() {
    let values = vec![
        Value::Number(0),
        Value::Number(-42),
        Value::Number(123456),
        Value::Number(i64::MAX),
        Value::Number(i64::MIN),
        Value::NaN,
        Value::InfPositive,
        Value::InfNegative,
    ];
    for v in values {
        let text = v.to_string();
        assert_eq!(Value::from_str(text.as_str()), Ok(v));
    }
}

#[test]
fn value_to_string_forms() {
    assert_eq!(Value::Number(-42).to_string(), "-42");
    assert_eq!(Value::Number(7).to_string(), "7");
    assert_eq!(Value::InfPositive.to_string(), "Inf");
    assert_eq!(Value::InfNegative.to_string(), "-Inf");
    assert_eq!(Value::NaN.to_string(), "NaN");
}

#[test]
fn value_from_str_special_cases() {
    assert_eq!(Value::from_str("  +Inf "), Ok(Value::InfPositive));
    assert_eq!(Value::from_str("-Inf"), Ok(Value::InfNegative));
    assert_eq!(Value::from_str("\tNaN\n"), Ok(Value::NaN));
    assert_eq!(Value::from_str(" 12 "), Ok(Value::Number(12)));
    assert_eq!(Value::from_str("abc"), Ok(Value::NaN));
    assert_eq!(Value::from_str(""), Ok(Value::NaN));
    assert_eq!(Value::from_str("99999999999999999999"), Ok(Value::NaN));
}

#[test]
fn value_arithmetic() {
    let mut v = Value::Number(2);
    v.add_assign(Value::Number(3));
    assert_eq!(v, Value::Number(5));
    v.sub_assign(Value::Number(7));
    assert_eq!(v, Value::Number(-2));

    let mut n = Value::NaN;
    n.add_assign(Value::Number(1));
    assert_eq!(n, Value::NaN);

    let mut a = Value::Number(1);
    a.add_assign(Value::InfNegative);
    assert_eq!(a, Value::InfNegative);

    let mut b = Value::InfPositive;
    b.sub_assign(Value::NaN);
    assert_eq!(b, Value::InfPositive);

    let mut c = Value::Number(4);
    c.sub_assign(Value::NaN);
    assert_eq!(c, Value::NaN);
}

#[test]
fn value_arithmetic_wraps_at_the_ends() {
    let mut v = Value::Number(i64::MAX);
    v.add_assign(Value::Number(1));
    assert_eq!(v, Value::Number(i64::MIN));
    let mut w = Value::Number(i64::MIN);
    w.sub_assign(Value::Number(1));
    assert_eq!(w, Value::Number(i64::MAX));
}

#[test]
fn number_operand_round_trip() {
    let ops = vec![
        Operand::Addr(7),
        Operand::Addr(-3),
        Operand::Immediate(-5),
        Operand::Immediate(0),
        Operand::Indirect(12),
        Operand::Indirect(i64::MIN),
    ];
    for o in ops {
        let text = o.to_string();
        assert_eq!(Operand::<i64>::from_str(text.as_str()), Ok(o));
    }
    assert_eq!(Operand::Immediate(-5i64).to_string(), "#-5");
    assert_eq!(Operand::Indirect(12i64).to_string(), "@12");
    assert_eq!(Operand::Addr(7i64).to_string(), "7");
}

#[test]
fn number_operand_errors() {
    assert_eq!(Operand::<i64>::from_str("x"), Err(IntErrorKind::InvalidDigit));
    assert_eq!(Operand::<i64>::from_str("#"), Err(IntErrorKind::Empty));
    assert_eq!(Operand::<i64>::from_str(""), Err(IntErrorKind::Empty));
    assert_eq!(Operand::<i64>::from_str("@-"), Err(IntErrorKind::InvalidDigit));
    assert_eq!(Operand::<i64>::from_str("9223372036854775808"), Err(IntErrorKind::PosOverflow));
    assert_eq!(Operand::<i64>::from_str("#-9223372036854775809"), Err(IntErrorKind::NegOverflow));
}

#[test]
fn opcode_mnemonics() {
    let ops = vec![
        OpCode::Hlt,
        OpCode::Add,
        OpCode::Sub,
        OpCode::Sta,
        OpCode::Lda,
        OpCode::Bra,
        OpCode::Brz,
        OpCode::Brp,
        OpCode::Inp,
        OpCode::Out,
        OpCode::Dat,
    ];
    for op in ops {
        assert_eq!(OpCode::from_str(op.as_str()), Ok(op));
        assert_eq!(OpCode::from_str(op.as_str().to_lowercase().as_str()), Ok(op));
    }
    assert_eq!(OpCode::from_str("LdA"), Ok(OpCode::Lda));
    assert_eq!(OpCode::from_str("NOP"), Err(()));
    assert_eq!(OpCode::from_str("LOAD"), Err(()));
    assert_eq!(OpCode::from_str(""), Err(()));
    assert_eq!(OpCode::Nop.as_str(), "NOP");
}

#[test]
fn opcode_numbers() {
    assert_eq!(OpCode::Hlt.opcode(), 0);
    assert_eq!(OpCode::Add.opcode(), 1);
    assert_eq!(OpCode::Sub.opcode(), 2);
    assert_eq!(OpCode::Sta.opcode(), 3);
    assert_eq!(OpCode::Nop.opcode(), 4);
    assert_eq!(OpCode::Lda.opcode(), 5);
    assert_eq!(OpCode::Bra.opcode(), 6);
    assert_eq!(OpCode::Brz.opcode(), 7);
    assert_eq!(OpCode::Brp.opcode(), 8);
    assert_eq!(OpCode::Inp.opcode(), 901);
    assert_eq!(OpCode::Out.opcode(), 902);
    assert_eq!(OpCode::Dat.opcode(), 0);
}

#[test]
fn inst_to_string_forms() {
    assert_eq!(Inst::new(OpCode::Add, Some(Operand::Addr(5))).to_string(), "15");
    assert_eq!(Inst::new(OpCode::Inp, None).to_string(), "901");
    assert_eq!(Inst::new(OpCode::Sta, Some(Operand::Immediate(3))).to_string(), "3#3");
    assert_eq!(Inst::new(OpCode::Lda, Some(Operand::Indirect(-2))).to_string(), "5@-2");
}

#[test]
fn inst_encodes_as_value() {
    assert_eq!(inst_into_value(Inst::new(OpCode::Add, Some(Operand::Addr(5)))), Value::Number(15));
    assert_eq!(inst_into_value(Inst::new(OpCode::Lda, Some(Operand::Addr(42)))), Value::Number(542));
    assert_eq!(inst_into_value(Inst::new(OpCode::Add, Some(Operand::Addr(0)))), Value::Number(10));
    assert_eq!(inst_into_value(Inst::new(OpCode::Add, Some(Operand::Addr(-3)))), Value::Number(7));
    assert_eq!(inst_into_value(Inst::new(OpCode::Out, None)), Value::Number(902));
    assert_eq!(inst_into_value(Inst::new(OpCode::Sub, Some(Operand::Immediate(9)))), Value::Number(2));
    assert_eq!(inst_into_value(Inst::new(OpCode::Dat, Some(Operand::Addr(7)))), Value::Number(7));
    assert_eq!(inst_into_value(Inst::new(OpCode::Dat, None)), Value::Number(0));
    assert_eq!(inst_into_value(Inst::new(OpCode::Dat, Some(Operand::Immediate(1)))), Value::NaN);
    assert_eq!(Inst::new(OpCode::Bra, Some(Operand::Addr(123))).into(), Value::Number(6123));
}

#[test]
fn value_decodes_as_inst() {
    assert_eq!(value_into_inst(Value::Number(0)), Inst::new(OpCode::Hlt, None));
    assert_eq!(value_into_inst(Value::Number(-1)), Inst::new(OpCode::Nop, None));
    assert_eq!(value_into_inst(Value::NaN), Inst::new(OpCode::Nop, None));
    assert_eq!(value_into_inst(Value::InfPositive), Inst::new(OpCode::Nop, None));
    assert_eq!(value_into_inst(Value::Number(15)), Inst::new(OpCode::Nop, None));
    assert_eq!(value_into_inst(Value::Number(901)), Inst::new(OpCode::Nop, None));
    assert_eq!(Inst::from(Value::Number(542)), Inst::new(OpCode::Nop, None));
}

#[test]
fn operand_values_read_labels_and_numbers() {
    match OperandValue::lifetime_from_str("loop_1") {
        Ok(OperandValue::Label(l)) => assert_eq!(l, "loop_1"),
        other => panic!("unexpected {:?}", other),
    }
    match OperandValue::lifetime_from_str("42") {
        Ok(OperandValue::Value(v)) => assert_eq!(v, 42),
        other => panic!("unexpected {:?}", other),
    }
    match OperandValue::lifetime_from_str("4x") {
        Err(OperandParseError::InvalidIntegerLiteral(k)) => assert_eq!(k, IntErrorKind::InvalidDigit),
        other => panic!("unexpected {:?}", other),
    }
    match OperandValue::lifetime_from_str("-x") {
        Err(OperandParseError::InvalidLabel(l)) => assert_eq!(l, "-x"),
        other => panic!("unexpected {:?}", other),
    }
    match Operand::<OperandValue>::lifetime_from_str("#k") {
        Ok(Operand::Immediate(OperandValue::Label(l))) => assert_eq!(l, "k"),
        other => panic!("unexpected {:?}", other),
    }
    match Operand::<OperandValue>::lifetime_from_str("@3") {
        Ok(o) => assert_eq!(o.to_string(), "@3"),
        other => panic!("unexpected {:?}", other),
    }
}

#[test]
fn tabs_become_four_spaces() {
    assert_eq!(lmc::program::replace_tabs("a\tb\t\tc"), "a    b        c");
    assert_eq!(lmc::program::replace_tabs("none"), "none");
    assert_eq!(lmc::program::replace_tabs(""), "");
}
