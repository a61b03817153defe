use lmc::instruction::{Inst, OpCode, Operand, Value};
use lmc::interpreter::{Event, InterpreterErrorSource, Vm};
use lmc::memory::{DynamicMemoryStorage, MemoryError, MemoryStorage};
use lmc::program::{assemble_program, load_program};

fn machine(source: &str) -> Vm<DynamicMemoryStorage<String>> {
    match assemble_program(source, true) {
        Some(Ok((insts, _))) => Vm::new(load_program(insts.as_slice())),
        other => panic!("assembling failed: {:?}", other.map(|r| r.map(|(i, _)| i))),
    }
}

#[test]
fn values_read_back_from_memory() {
    let mut m: DynamicMemoryStorage<String> = DynamicMemoryStorage::new();
    let values = vec![Value::Number(-7), Value::Number(0), Value::NaN, Value::InfPositive, Value::InfNegative, Value::Number(i64::MAX)];
    for (k, v) in values.iter().enumerate() {
        assert!(m.set_value(k * 3, *v).is_ok());
    }
    for (k, v) in values.iter().enumerate() {
        assert_eq!(m.get_value(k * 3), Ok(*v));
    }
    assert_eq!(m.get_value(1), Ok(Value::Number(0)));
    assert_eq!(m.get_value(1000), Ok(Value::Number(0)));
    assert_eq!(m.texts_len(), 16);
}

#[test]
fn instructions_read_back_from_memory() {
    let mut m: DynamicMemoryStorage<String> = DynamicMemoryStorage::new();
    let insts = vec![
        Inst::new(OpCode::Lda, Some(Operand::Addr(5))),
        Inst::new(OpCode::Add, Some(Operand::Immediate(-3))),
        Inst::new(OpCode::Sta, Some(Operand::Indirect(12))),
        Inst::new(OpCode::Inp, None),
        Inst::new(OpCode::Out, None),
        Inst::new(OpCode::Hlt, None),
        Inst::new(OpCode::Nop, None),
    ];
    for (k, i) in insts.iter().enumerate() {
        assert!(m.set_inst(k, *i).is_ok());
    }
    for (k, i) in insts.iter().enumerate() {
        assert_eq!(m.get_inst(k), Ok(*i));
    }
    assert_eq!(m.get_value(0), Ok(Value::Number(55)));
    assert_eq!(m.get_inst(100), Ok(Inst::new(OpCode::Hlt, None)));
}

#[test]
fn cells_that_do_not_read() {
    let mut m: DynamicMemoryStorage<String> = DynamicMemoryStorage::new();
    m.set_inst(2, Inst::new(OpCode::Add, Some(Operand::Immediate(5)))).unwrap();
    assert_eq!(m.get_value(2), Err(MemoryError::MalformedCell(2)));
    m.set_inst(3, Inst::new(OpCode::Add, None)).unwrap();
    assert_eq!(m.get_inst(3), Err(MemoryError::MalformedCell(3)));
    m.set_value(4, Value::NaN).unwrap();
    assert_eq!(m.get_inst(4), Ok(Inst::new(OpCode::Nop, None)));
    assert_eq!(m.set_value(usize::MAX, Value::Number(1)), Err(MemoryError::AddrOutOfRange(usize::MAX, 4)));
}

#[test]
fn memory_messages() {
    assert_eq!(
        MemoryError::AddrOutOfRange(9, 4).message(),
        "attempted to access address `9` which outside the range of valid addresses, `0-4`"
    );
    assert_eq!(MemoryError::MalformedCell(3).message(), "the cell at address `3` does not hold a readable value");
}

#[test]
fn echo_program_asks_and_answers() {
    let mut vm = machine("INP\nOUT\nHLT");
    assert_eq!(vm.run_program(100).unwrap(), Some(Event::Input));
    vm.supply_input("42\n");
    assert_eq!(vm.run_program(100).unwrap(), Some(Event::Output(Value::Number(42))));
    assert_eq!(vm.run_program(100).unwrap(), Some(Event::Halted));
}

#[test]
fn countdown_loop() {
    let mut vm = machine("LDA #3\nloop OUT\nSUB #1\nBRP loop\nHLT");
    let mut seen = vec![];
    loop {
        match vm.run_program(1000).unwrap() {
            Some(Event::Output(v)) => seen.push(v),
            Some(Event::Halted) => break,
            other => panic!("unexpected {:?}", other),
        }
    }
    assert_eq!(seen, vec![Value::Number(3), Value::Number(2), Value::Number(1), Value::Number(0)]);
    assert_eq!(vm.acc(), Value::Number(-1));
}

#[test]
fn store_and_load_through_memory() {
    let mut vm = machine("LDA #7\nSTA 9\nLDA #0\nADD 9\nADD @10\nOUT\nHLT\nx DAT 0\ny DAT 0\nz DAT 0\nw DAT 9");
    assert_eq!(vm.run_program(100).unwrap(), Some(Event::Output(Value::Number(14))));
}

#[test]
fn step_limit_stops_a_loop() {
    let mut vm = machine("loop BRA loop");
    assert_eq!(vm.run_program(5).unwrap(), None);
    assert_eq!(vm.pc(), 0);
}

#[test]
fn negative_address_is_an_error() {
    let mut vm = machine("LDA #0\nSUB #1\nSTA 9\nSTA @9\nHLT");
    match vm.run_program(10) {
        Err(e) => {
            assert_eq!(e.pc, 3);
            assert!(matches!(e.source, InterpreterErrorSource::NegAddrError));
            assert_eq!(
                e.message(),
                "Error while executing instruction `3`: attemped to use a negative value as an adress"
            );
        },
        other => panic!("unexpected {:?}", other),
    }
}

#[test]
fn nan_address_is_an_error() {
    let mut vm = machine("INP\nSTA 9\nLDA @9\nHLT");
    assert_eq!(vm.run_program(10).unwrap(), Some(Event::Input));
    vm.supply_input("hello");
    assert_eq!(vm.acc(), Value::NaN);
    match vm.run_program(10) {
        Err(e) => {
            assert_eq!(e.pc, 2);
            assert!(matches!(e.source, InterpreterErrorSource::NaNAddrError));
        },
        Ok(ev) => panic!("unexpected {:?}", ev),
    }
}

#[test]
fn fresh_machine_state() {
    let m: DynamicMemoryStorage<String> = DynamicMemoryStorage::new();
    let vm = Vm::new(m);
    assert_eq!(vm.pc(), 0);
    assert_eq!(vm.acc(), Value::Number(0));
    assert_eq!(vm.memory().texts_len(), 0);
}

#[test]
fn loaded_program_reads_back() {
    let insts = vec![
        Inst::new(OpCode::Lda, Some(Operand::Addr(2))),
        Inst::new(OpCode::Out, None),
        Inst::new(OpCode::Dat, Some(Operand::Addr(42))),
    ];
    let m = load_program(&insts);
    assert_eq!(m.texts_len(), 3);
    assert_eq!(m.get_inst(0), Ok(insts[0]));
    assert_eq!(m.get_inst(1), Ok(insts[1]));
    assert_eq!(m.get_value(2), Ok(Value::Number(42)));
}

#[test]
fn a_write_leaves_other_cells_alone() {
    let mut m: DynamicMemoryStorage<String> = DynamicMemoryStorage::new();
    m.set_value(1, Value::Number(11)).unwrap();
    m.set_value(3, Value::Number(33)).unwrap();
    assert_eq!(m.get_value(1), Ok(Value::Number(11)));
    m.set_inst(1, Inst::new(OpCode::Bra, Some(Operand::Addr(7)))).unwrap();
    assert_eq!(m.get_value(3), Ok(Value::Number(33)));
    assert_eq!(m.get_inst(1), Ok(Inst::new(OpCode::Bra, Some(Operand::Addr(7)))));
}

#[test]
fn running_in_two_parts_is_running_once() {
    let source = "loop ADD #1\nBRA loop";
    let mut a = machine(source);
    assert_eq!(a.run_program(3).unwrap(), None);
    assert_eq!(a.run_program(4).unwrap(), None);
    let mut b = machine(source);
    assert_eq!(b.run_program(7).unwrap(), None);
    assert_eq!(a.acc(), b.acc());
    assert_eq!(a.pc(), b.pc());
    assert_eq!(a.acc(), Value::Number(4));
}
