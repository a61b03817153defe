//! The virtual machine that runs assembled programs.
//!
//! Input and output are left to the caller: the machine stops when it reaches
//! an `INP` or `OUT` instruction and says so, and the caller performs the
//! transfer (see [`Vm::supply_input`]) before running on.
use vstd::prelude::*;

use crate::instruction::{Inst, OpCode, Operand, Value, value_of_text};
use crate::memory::{
    read_inst, read_value, writable, write_error, write_text, MemoryError, MemoryStorage,
};
use crate::text::{decimal, push_str, string_of, usize_to_decimal};

verus! {

/// Why an instruction could not be carried out.
#[derive(Debug)]
pub enum InterpreterErrorSource {
    MemoryError(MemoryError),
    NaNAddrError,
    InfAddrError,
    NegInfAddrError,
    NegAddrError,
    /// Reading input or writing output failed; the text is the failure's message.
    IoError(String),
}

pub enum InterpreterErrorSourceView {
    MemoryError(MemoryError),
    NaNAddrError,
    InfAddrError,
    NegInfAddrError,
    NegAddrError,
    IoError(Seq<char>),
}

impl View for InterpreterErrorSource {
    type V = InterpreterErrorSourceView;

    open spec fn view(&self) -> InterpreterErrorSourceView {
        match self {
            InterpreterErrorSource::MemoryError(e) => InterpreterErrorSourceView::MemoryError(*e),
            InterpreterErrorSource::NaNAddrError => InterpreterErrorSourceView::NaNAddrError,
            InterpreterErrorSource::InfAddrError => InterpreterErrorSourceView::InfAddrError,
            InterpreterErrorSource::NegInfAddrError => InterpreterErrorSourceView::NegInfAddrError,
            InterpreterErrorSource::NegAddrError => InterpreterErrorSourceView::NegAddrError,
            InterpreterErrorSource::IoError(m) => InterpreterErrorSourceView::IoError(m@),
        }
    }
}

impl InterpreterErrorSourceView {
    pub open spec fn message(self) -> Seq<char> {
        match self {
            InterpreterErrorSourceView::MemoryError(e) => e.spec_message(),
            InterpreterErrorSourceView::NaNAddrError => "attempted to use a NaN value as an address"@,
            InterpreterErrorSourceView::InfAddrError => "attempted to use an Inf value as an address"@,
            InterpreterErrorSourceView::NegInfAddrError => "attempted to use a -Inf value as an address"@,
            InterpreterErrorSourceView::NegAddrError => "attemped to use a negative value as an adress"@,
            InterpreterErrorSourceView::IoError(m) => m,
        }
    }
}

impl InterpreterErrorSource {
    /// The message of the error.
    pub fn message(&self) -> (r: String)
        ensures
            r@ == self@.message(),
    {
        match self {
            InterpreterErrorSource::MemoryError(e) => e.message(),
            InterpreterErrorSource::NaNAddrError => string_of("attempted to use a NaN value as an address"),
            InterpreterErrorSource::InfAddrError => string_of("attempted to use an Inf value as an address"),
            InterpreterErrorSource::NegInfAddrError => string_of("attempted to use a -Inf value as an address"),
            InterpreterErrorSource::NegAddrError => string_of("attemped to use a negative value as an adress"),
            InterpreterErrorSource::IoError(m) => m.clone(),
        }
    }
}

/// An error, with the address of the instruction that raised it.
#[derive(Debug)]
pub struct InterpreterError {
    pub pc: usize,
    pub source: InterpreterErrorSource,
}

pub struct InterpreterErrorView {
    pub pc: usize,
    pub source: InterpreterErrorSourceView,
}

impl View for InterpreterError {
    type V = InterpreterErrorView;

    open spec fn view(&self) -> InterpreterErrorView {
        InterpreterErrorView { pc: self.pc, source: self.source@ }
    }
}

impl InterpreterError {
    pub open spec fn spec_message(self) -> Seq<char> {
        "Error while executing instruction `"@ + decimal(self.pc as nat) + "`: "@
            + self.source@.message()
    }

    /// The message of the error.
    pub fn message(&self) -> (r: String)
        ensures
            r@ == self.spec_message(),
    {
        let mut r = string_of("Error while executing instruction `");
        let t = usize_to_decimal(self.pc);
        push_str(&mut r, t.as_str());
        push_str(&mut r, "`: ");
        let t = self.source.message();
        push_str(&mut r, t.as_str());
        r
    }
}

pub type InterpreterResult<T> = Result<T, InterpreterError>;

/// Why the machine stopped running.
#[derive(Copy, Clone, Debug, PartialEq, Eq, Structural)]
pub enum Event {
    /// It reached `HLT`.
    Halted,
    /// It reached `INP`: a line of input is to be given with [`Vm::supply_input`].
    Input,
    /// It reached `OUT`: the value is to be shown.
    Output(Value),
}

/// The machine's registers and memory.
pub struct Vm<M> {
    pc: usize,
    mar: usize,
    mdr: Value,
    cir: Inst,
    acc: Value,
    memory: M,
}

/// The machine as a mathematical value: its registers and the texts of its
/// memory cells.
#[verifier::ext_equal]
pub struct VmView {
    pub pc: usize,
    pub mar: usize,
    pub mdr: Value,
    pub cir: Inst,
    pub acc: Value,
    pub texts: Seq<Seq<char>>,
}

/// An `i64` as an address: `usize::try_from`, with every failure reported as
/// a negative address.
pub open spec fn to_addr(a: i64) -> Result<usize, InterpreterErrorSourceView> {
    if 0 <= a && a <= usize::MAX {
        Ok(a as usize)
    } else {
        Err(InterpreterErrorSourceView::NegAddrError)
    }
}

/// A value as an address.
pub open spec fn value_addr(v: Value) -> Result<usize, InterpreterErrorSourceView> {
    match v {
        Value::Number(a) => to_addr(a),
        Value::InfPositive => Err(InterpreterErrorSourceView::InfAddrError),
        Value::InfNegative => Err(InterpreterErrorSourceView::NegInfAddrError),
        Value::NaN => Err(InterpreterErrorSourceView::NaNAddrError),
    }
}

pub open spec fn mem_value(texts: Seq<Seq<char>>, addr: usize) -> Result<Value, InterpreterErrorSourceView> {
    match read_value(texts, addr) {
        Ok(v) => Ok(v),
        Err(e) => Err(InterpreterErrorSourceView::MemoryError(e)),
    }
}

/// The value an operand denotes: the cell at the address, the number itself,
/// or the cell at the address held in the cell at the address.
pub open spec fn operand_value(texts: Seq<Seq<char>>, op: Operand<i64>) -> Result<Value, InterpreterErrorSourceView> {
    match op {
        Operand::Addr(a) => match to_addr(a) {
            Ok(addr) => mem_value(texts, addr),
            Err(e) => Err(e),
        },
        Operand::Immediate(i) => Ok(Value::Number(i)),
        Operand::Indirect(a) => match to_addr(a) {
            Ok(addr) => match mem_value(texts, addr) {
                Ok(Value::Number(b)) => match to_addr(b) {
                    Ok(addr2) => mem_value(texts, addr2),
                    Err(e) => Err(e),
                },
                Ok(Value::InfPositive) => Err(InterpreterErrorSourceView::InfAddrError),
                Ok(Value::InfNegative) => Err(InterpreterErrorSourceView::NegInfAddrError),
                Ok(Value::NaN) => Err(InterpreterErrorSourceView::NaNAddrError),
                Err(e) => Err(e),
            },
            Err(e) => Err(e),
        },
    }
}

/// The address an operand denotes, as a value: the number written for the
/// direct and immediate modes, the cell at the address for the indirect mode.
pub open spec fn operand_addr(texts: Seq<Seq<char>>, op: Operand<i64>) -> Result<Value, InterpreterErrorSourceView> {
    match op {
        Operand::Addr(a) => Ok(Value::Number(a)),
        Operand::Immediate(i) => Ok(Value::Number(i)),
        Operand::Indirect(a) => match to_addr(a) {
            Ok(addr) => mem_value(texts, addr),
            Err(e) => Err(e),
        },
    }
}

/// The machine after a jump to the address `v`.
pub open spec fn jump(s: VmView, v: Value) -> Result<VmView, InterpreterErrorSourceView> {
    match value_addr(v) {
        Ok(a) => Ok(VmView { pc: a, ..s }),
        Err(e) => Err(e),
    }
}

/// A jump to the address that operand `op` denotes.
pub open spec fn jump_to_operand(s: VmView, op: Operand<i64>, by_value: bool) -> Result<(VmView, Option<Event>), InterpreterErrorSourceView> {
    let target = if by_value { operand_value(s.texts, op) } else { operand_addr(s.texts, op) };
    match target {
        Ok(v) => match jump(s, v) {
            Ok(t) => Ok((t, None)),
            Err(e) => Err(e),
        },
        Err(e) => Err(e),
    }
}

/// Carrying out the instruction in `cir`: the machine afterwards, and the
/// transfer it asks for, if any.
pub open spec fn execute_step(s: VmView) -> Result<(VmView, Option<Event>), InterpreterErrorSourceView> {
    match s.cir.opcode {
        OpCode::Inp => Ok((s, Some(Event::Input))),
        OpCode::Out => Ok((s, Some(Event::Output(s.acc)))),
        OpCode::Add => match s.cir.operand {
            Some(op) => match operand_value(s.texts, op) {
                Ok(v) => Ok((VmView { acc: s.acc.plus(v), ..s }, None)),
                Err(e) => Err(e),
            },
            None => Ok((s, None)),
        },
        OpCode::Sub => match s.cir.operand {
            Some(op) => match operand_value(s.texts, op) {
                Ok(v) => Ok((VmView { acc: s.acc.minus(v), ..s }, None)),
                Err(e) => Err(e),
            },
            None => Ok((s, None)),
        },
        OpCode::Sta => match s.cir.operand {
            Some(op) => match operand_addr(s.texts, op) {
                Ok(v) => match value_addr(v) {
                    Ok(a) => if writable(s.texts, a) {
                        Ok((VmView { texts: write_text(s.texts, a, s.acc.text()), ..s }, None))
                    } else {
                        Err(InterpreterErrorSourceView::MemoryError(write_error(s.texts, a)))
                    },
                    Err(e) => Err(e),
                },
                Err(e) => Err(e),
            },
            None => Ok((s, None)),
        },
        OpCode::Lda => match s.cir.operand {
            Some(op) => match operand_value(s.texts, op) {
                Ok(v) => Ok((VmView { acc: v, ..s }, None)),
                Err(e) => Err(e),
            },
            None => Ok((s, None)),
        },
        OpCode::Bra => match s.cir.operand {
            Some(op) => jump_to_operand(s, op, false),
            None => Ok((s, None)),
        },
        OpCode::Brz => match (s.acc, s.cir.operand) {
            (Value::Number(0), Some(op)) => jump_to_operand(s, op, false),
            _ => Ok((s, None)),
        },
        OpCode::Brp => match (s.acc, s.cir.operand) {
            (Value::Number(x), Some(op)) => if x >= 0 {
                jump_to_operand(s, op, false)
            } else {
                Ok((s, None))
            },
            (Value::InfPositive, Some(op)) => jump_to_operand(s, op, true),
            _ => Ok((s, None)),
        },
        _ => Ok((s, None)),
    }
}

/// Fetching the instruction at `pc` into `cir` and stepping `pc` on.
pub open spec fn fetch_step(s: VmView) -> Result<VmView, InterpreterErrorSourceView> {
    if s.pc == usize::MAX {
        Err(InterpreterErrorSourceView::MemoryError(MemoryError::AddrOutOfRange(s.pc, (if s.texts.len() > 0 { (s.texts.len() - 1) as usize } else { 0 }))))
    } else {
        match read_inst(s.texts, s.pc) {
            Ok(i) => Ok(VmView { cir: i, pc: (s.pc + 1) as usize, ..s }),
            Err(e) => Err(InterpreterErrorSourceView::MemoryError(e)),
        }
    }
}

/// Running at most `fuel` instructions: the machine afterwards and how the
/// run ended (`None`: the fuel ran out).
pub open spec fn run_steps(s: VmView, fuel: nat) -> (VmView, Result<Option<Event>, InterpreterErrorView>)
    decreases fuel,
{
    if fuel == 0 {
        (s, Ok(None))
    } else {
        match fetch_step(s) {
            Err(e) => (s, Err(InterpreterErrorView { pc: s.pc, source: e })),
            Ok(s1) => if s1.cir.opcode == OpCode::Hlt {
                (s1, Ok(Some(Event::Halted)))
            } else {
                match execute_step(s1) {
                    Err(e) => (s1, Err(InterpreterErrorView { pc: (s1.pc - 1) as usize, source: e })),
                    Ok((s2, Some(ev))) => (s2, Ok(Some(ev))),
                    Ok((s2, None)) => run_steps(s2, (fuel - 1) as nat),
                }
            },
        }
    }
}

impl<M: MemoryStorage> Vm<M> {
    /// The registers and the memory's texts.
    pub closed spec fn state(&self) -> VmView {
        VmView {
            pc: self.pc,
            mar: self.mar,
            mdr: self.mdr,
            cir: self.cir,
            acc: self.acc,
            texts: self.memory.texts(),
        }
    }

    /// A machine over `memory`, about to run the instruction at address 0.
    pub fn new(memory: M) -> (r: Self)
        ensures
            r.state() == (VmView {
                pc: 0,
                mar: 0,
                mdr: Value::Number(0),
                cir: Inst { opcode: OpCode::Nop, operand: None },
                acc: Value::Number(0),
                texts: memory.texts(),
            }),
    {
        Self {
            pc: 0,
            mar: 0,
            mdr: Value::Number(0),
            cir: Inst { opcode: OpCode::Nop, operand: None },
            acc: Value::Number(0),
            memory,
        }
    }

    /// The address of the next instruction.
    pub fn pc(&self) -> (r: usize)
        ensures
            r == self.state().pc,
    {
        self.pc
    }

    /// The accumulator.
    pub fn acc(&self) -> (r: Value)
        ensures
            r == self.state().acc,
    {
        self.acc
    }

    /// The instruction being carried out.
    pub fn cir(&self) -> (r: Inst)
        ensures
            r == self.state().cir,
    {
        self.cir
    }

    /// The memory.
    pub fn memory(&self) -> (r: &M)
        ensures
            r.texts() == self.state().texts,
    {
        &self.memory
    }

    fn addr_of(a: i64) -> (r: Result<usize, InterpreterErrorSource>)
        ensures
            r matches Ok(x) ==> to_addr(a) == Ok::<usize, InterpreterErrorSourceView>(x),
            r matches Err(e) ==> to_addr(a) == Err::<usize, InterpreterErrorSourceView>(e@),
    {
        if a >= 0 && (a as u64) <= (usize::MAX as u64) {
            Ok(a as usize)
        } else {
            Err(InterpreterErrorSource::NegAddrError)
        }
    }

    fn read(&self, addr: usize) -> (r: Result<Value, InterpreterErrorSource>)
        ensures
            r matches Ok(v) ==> mem_value(self.state().texts, addr) == Ok::<Value, InterpreterErrorSourceView>(v),
            r matches Err(e) ==> mem_value(self.state().texts, addr) == Err::<Value, InterpreterErrorSourceView>(e@),
    {
        match self.memory.get_value(addr) {
            Ok(v) => Ok(v),
            Err(e) => Err(InterpreterErrorSource::MemoryError(e)),
        }
    }

    fn get_operand_value(&mut self, operand: Operand<i64>) -> (r: Result<Value, InterpreterErrorSource>)
        ensures
            final(self).state() == old(self).state(),
            r matches Ok(v) ==> operand_value(old(self).state().texts, operand) == Ok::<Value, InterpreterErrorSourceView>(v),
            r matches Err(e) ==> operand_value(old(self).state().texts, operand) == Err::<Value, InterpreterErrorSourceView>(e@),
    {
        match operand {
            Operand::Addr(addr) => {
                let a = Self::addr_of(addr)?;
                self.read(a)
            },
            Operand::Immediate(imm) => Ok(Value::Number(imm)),
            Operand::Indirect(addr) => {
                let a = Self::addr_of(addr)?;
                let v = self.read(a)?;
                let b = match v {
                    Value::Number(b) => b,
                    Value::InfPositive => return Err(InterpreterErrorSource::InfAddrError),
                    Value::InfNegative => return Err(InterpreterErrorSource::NegInfAddrError),
                    Value::NaN => return Err(InterpreterErrorSource::NaNAddrError),
                };
                let a2 = Self::addr_of(b)?;
                self.read(a2)
            },
        }
    }

    fn get_operand_addr(&mut self, operand: Operand<i64>) -> (r: Result<Value, InterpreterErrorSource>)
        ensures
            final(self).state() == old(self).state(),
            r matches Ok(v) ==> operand_addr(old(self).state().texts, operand) == Ok::<Value, InterpreterErrorSourceView>(v),
            r matches Err(e) ==> operand_addr(old(self).state().texts, operand) == Err::<Value, InterpreterErrorSourceView>(e@),
    {
        match operand {
            Operand::Addr(addr) => Ok(Value::Number(addr)),
            Operand::Immediate(imm) => Ok(Value::Number(imm)),
            Operand::Indirect(addr) => {
                let a = Self::addr_of(addr)?;
                self.read(a)
            },
        }
    }

    /// Loads the instruction at `pc` into `cir` and steps `pc` on.
    pub fn fetch_decode(&mut self) -> (r: Result<(), InterpreterErrorSource>)
        ensures
            r is Ok ==> fetch_step(old(self).state()) == Ok::<VmView, InterpreterErrorSourceView>(final(self).state()),
            r matches Err(e) ==> fetch_step(old(self).state()) == Err::<VmView, InterpreterErrorSourceView>(e@)
                && final(self).state() == old(self).state(),
    {
        if self.pc == usize::MAX {
            let len = self.memory.texts_len();
            return Err(InterpreterErrorSource::MemoryError(MemoryError::AddrOutOfRange(self.pc, if len > 0 { len - 1 } else { 0 })));
        }
        match self.memory.get_inst(self.pc) {
            Ok(inst) => {
                self.cir = inst;
                self.pc = self.pc + 1;
                Ok(())
            },
            Err(e) => Err(InterpreterErrorSource::MemoryError(e)),
        }
    }

    /// Continues at the address `addr`.
    pub fn break_to(&mut self, addr: Value) -> (r: Result<(), InterpreterErrorSource>)
        ensures
            r is Ok ==> jump(old(self).state(), addr) == Ok::<VmView, InterpreterErrorSourceView>(final(self).state()),
            r matches Err(e) ==> jump(old(self).state(), addr) == Err::<VmView, InterpreterErrorSourceView>(e@)
                && final(self).state() == old(self).state(),
    {
        match addr {
            Value::Number(a) => {
                self.pc = Self::addr_of(a)?;
            },
            Value::InfPositive => return Err(InterpreterErrorSource::InfAddrError),
            Value::InfNegative => return Err(InterpreterErrorSource::NegInfAddrError),
            Value::NaN => return Err(InterpreterErrorSource::NaNAddrError),
        }
        Ok(())
    }

    fn branch(&mut self, operand: Operand<i64>, by_value: bool) -> (r: Result<Option<Event>, InterpreterErrorSource>)
        ensures
            r matches Ok(ev) ==> jump_to_operand(old(self).state(), operand, by_value) == Ok::<(VmView, Option<Event>), InterpreterErrorSourceView>((final(self).state(), ev)),
            r matches Err(e) ==> jump_to_operand(old(self).state(), operand, by_value) == Err::<(VmView, Option<Event>), InterpreterErrorSourceView>(e@)
                && final(self).state() == old(self).state(),
    {
        let value = if by_value {
            self.get_operand_value(operand)?
        } else {
            self.get_operand_addr(operand)?
        };
        self.break_to(value)?;
        Ok(None)
    }

    /// Carries out the instruction in `cir`.  `INP` and `OUT` are not carried
    /// out here: they are reported, for the caller to do the transfer.
    pub fn execute(&mut self) -> (r: Result<Option<Event>, InterpreterErrorSource>)
        ensures
            r matches Ok(ev) ==> execute_step(old(self).state()) == Ok::<(VmView, Option<Event>), InterpreterErrorSourceView>((final(self).state(), ev)),
            r matches Err(e) ==> execute_step(old(self).state()) == Err::<(VmView, Option<Event>), InterpreterErrorSourceView>(e@)
                && final(self).state() == old(self).state(),
    {
        match self.cir.opcode {
            OpCode::Inp => Ok(Some(Event::Input)),
            OpCode::Out => Ok(Some(Event::Output(self.acc))),
            OpCode::Add => {
                if let Some(operand) = self.cir.operand {
                    let value = self.get_operand_value(operand)?;
                    self.acc.add_assign(value);
                }
                Ok(None)
            },
            OpCode::Sub => {
                if let Some(operand) = self.cir.operand {
                    let value = self.get_operand_value(operand)?;
                    self.acc.sub_assign(value);
                }
                Ok(None)
            },
            OpCode::Sta => {
                if let Some(operand) = self.cir.operand {
                    let value = self.get_operand_addr(operand)?;
                    let addr = match value {
                        Value::Number(a) => Self::addr_of(a)?,
                        Value::InfPositive => return Err(InterpreterErrorSource::InfAddrError),
                        Value::InfNegative => return Err(InterpreterErrorSource::NegInfAddrError),
                        Value::NaN => return Err(InterpreterErrorSource::NaNAddrError),
                    };
                    match self.memory.set_value(addr, self.acc) {
                        Ok(()) => {},
                        Err(e) => return Err(InterpreterErrorSource::MemoryError(e)),
                    }
                }
                Ok(None)
            },
            OpCode::Lda => {
                if let Some(operand) = self.cir.operand {
                    let value = self.get_operand_value(operand)?;
                    self.acc = value;
                }
                Ok(None)
            },
            OpCode::Bra => {
                if let Some(operand) = self.cir.operand {
                    self.branch(operand, false)
                } else {
                    Ok(None)
                }
            },
            OpCode::Brz => match (self.acc, self.cir.operand) {
                (Value::Number(0), Some(operand)) => self.branch(operand, false),
                _ => Ok(None),
            },
            OpCode::Brp => match (self.acc, self.cir.operand) {
                (Value::Number(value), Some(operand)) => {
                    if value >= 0 {
                        self.branch(operand, false)
                    } else {
                        Ok(None)
                    }
                },
                (Value::InfPositive, Some(operand)) => self.branch(operand, true),
                _ => Ok(None),
            },
            _ => Ok(None),
        }
    }

    /// Gives the line `line` read for an `INP` instruction: the accumulator
    /// becomes the value it reads as.
    pub fn supply_input(&mut self, line: &str)
        ensures
            final(self).state() == (VmView { acc: value_of_text(line@), ..old(self).state() }),
    {
        let v = match Value::from_str(line) {
            Ok(v) => v,
            Err(()) => Value::NaN,
        };
        self.acc = v;
    }

    /// Runs the program: fetches and carries out instructions until `HLT`,
    /// an error, an `INP` or `OUT` for the caller to serve, or `max_steps`
    /// instructions.
    pub fn run_program(&mut self, max_steps: u64) -> (r: InterpreterResult<Option<Event>>)
        ensures
            ({
                let (s, out) = run_steps(old(self).state(), max_steps as nat);
                &&& final(self).state() == s
                &&& r matches Ok(ev) ==> out == Ok::<Option<Event>, InterpreterErrorView>(ev)
                &&& r matches Err(e) ==> out == Err::<Option<Event>, InterpreterErrorView>(e@)
            }),
    {
        let mut fuel: u64 = max_steps;
        while fuel > 0
            invariant
                run_steps(old(self).state(), max_steps as nat) == run_steps(self.state(), fuel as nat),
            decreases fuel,
        {
            if let Err(e) = self.fetch_decode() {
                return Err(InterpreterError { pc: self.pc, source: e });
            }
            if self.cir.opcode == OpCode::Hlt {
                return Ok(Some(Event::Halted));
            }
            match self.execute() {
                Err(e) => {
                    return Err(InterpreterError { pc: self.pc - 1, source: e });
                },
                Ok(Some(ev)) => {
                    return Ok(Some(ev));
                },
                Ok(None) => {},
            }
            fuel = fuel - 1;
        }
        Ok(None)
    }
}

/// Running `a` instructions and then `b` more is running `a + b`
/// instructions, where the first run used up its fuel without stopping:
/// `run_program(a)` followed by `run_program(b)` does what
/// `run_program(a + b)` does.
pub proof fn law_run_steps_compose(s: VmView, a: nat, b: nat)
    requires
        run_steps(s, a).1 == Ok::<Option<Event>, InterpreterErrorView>(None),
    ensures
        run_steps(s, a + b) == run_steps(run_steps(s, a).0, b),
    decreases a,
{
    if a > 0 {
        match fetch_step(s) {
            Err(_) => {},
            Ok(s1) => {
                if s1.cir.opcode != OpCode::Hlt {
                    match execute_step(s1) {
                        Ok((s2, None)) => {
                            law_run_steps_compose(s2, (a - 1) as nat, b);
                            assert((a + b - 1) as nat == ((a - 1) as nat + b));
                        },
                        _ => {},
                    }
                }
            },
        }
    }
}

/// Only `STA` writes to memory, and only the branches move `pc`: every
/// other instruction leaves both as they were.
pub proof fn law_execute_frame(s: VmView)
    ensures
        execute_step(s) matches Ok((t, _)) ==> {
            &&& s.cir.opcode != OpCode::Sta ==> t.texts == s.texts
            &&& (s.cir.opcode != OpCode::Bra && s.cir.opcode != OpCode::Brz && s.cir.opcode != OpCode::Brp)
                ==> t.pc == s.pc
            &&& t.cir == s.cir
            &&& t.mar == s.mar
            &&& t.mdr == s.mdr
        },
{
}

/// `INP` and `OUT` change nothing: the caller does the transfer.
pub proof fn law_transfers_change_nothing(s: VmView)
    requires
        s.cir.opcode == OpCode::Inp || s.cir.opcode == OpCode::Out,
    ensures
        execute_step(s) matches Ok((t, Some(_))) && t == s,
{
}

// ---------------------------------------------------------------------------
// What each instruction does
// ---------------------------------------------------------------------------

/// The machine `s` with the accumulator `acc`.
pub open spec fn with_acc(s: VmView, acc: Value) -> VmView {
    VmView { pc: s.pc, mar: s.mar, mdr: s.mdr, cir: s.cir, acc, texts: s.texts }
}

/// The machine `s` with `pc` at `pc`.
pub open spec fn with_pc(s: VmView, pc: usize) -> VmView {
    VmView { pc, mar: s.mar, mdr: s.mdr, cir: s.cir, acc: s.acc, texts: s.texts }
}

/// `ADD a` and `SUB a` add or subtract the contents of cell `a`; `ADD #i`
/// and `SUB #i` the number `i` itself.  So `SUB a` followed by `ADD a`
/// gives back a numeric accumulator.
pub proof fn law_add_sub(s: VmView, a: i64, v: Value)
    requires
        0 <= a <= usize::MAX,
        read_value(s.texts, a as usize) == Ok::<Value, MemoryError>(v),
    ensures
        s.cir == (Inst { opcode: OpCode::Add, operand: Some(Operand::Addr(a)) }) ==> execute_step(s) == Ok::<
            (VmView, Option<Event>),
            InterpreterErrorSourceView,
        >((with_acc(s, s.acc.plus(v)), None)),
        s.cir == (Inst { opcode: OpCode::Sub, operand: Some(Operand::Addr(a)) }) ==> execute_step(s) == Ok::<
            (VmView, Option<Event>),
            InterpreterErrorSourceView,
        >((with_acc(s, s.acc.minus(v)), None)),
        s.cir == (Inst { opcode: OpCode::Add, operand: Some(Operand::Immediate(a)) }) ==> execute_step(s) == Ok::<
            (VmView, Option<Event>),
            InterpreterErrorSourceView,
        >((with_acc(s, s.acc.plus(Value::Number(a))), None)),
        s.cir == (Inst { opcode: OpCode::Sub, operand: Some(Operand::Immediate(a)) }) ==> execute_step(s) == Ok::<
            (VmView, Option<Event>),
            InterpreterErrorSourceView,
        >((with_acc(s, s.acc.minus(Value::Number(a))), None)),
        (s.acc is Number && v is Number) ==> s.acc.minus(v).plus(v) == s.acc,
{
    assert(with_acc(s, s.acc.plus(v)) == VmView { acc: s.acc.plus(v), ..s });
    assert(with_acc(s, s.acc.minus(v)) == VmView { acc: s.acc.minus(v), ..s });
    assert(with_acc(s, s.acc.plus(Value::Number(a))) == VmView { acc: s.acc.plus(Value::Number(a)), ..s });
    assert(with_acc(s, s.acc.minus(Value::Number(a))) == VmView { acc: s.acc.minus(Value::Number(a)), ..s });
    if s.acc is Number && v is Number {
        crate::instruction::law_number_arithmetic(s.acc->Number_0, v->Number_0);
    }
}

/// `LDA a` loads the contents of cell `a`, `LDA #i` the number `i`; `STA a`
/// writes the accumulator's text to cell `a` and changes nothing else.
pub proof fn law_load_store(s: VmView, a: i64, v: Value)
    requires
        0 <= a < usize::MAX,
        read_value(s.texts, a as usize) == Ok::<Value, MemoryError>(v),
    ensures
        s.cir == (Inst { opcode: OpCode::Lda, operand: Some(Operand::Addr(a)) }) ==> execute_step(s) == Ok::<
            (VmView, Option<Event>),
            InterpreterErrorSourceView,
        >((with_acc(s, v), None)),
        s.cir == (Inst { opcode: OpCode::Lda, operand: Some(Operand::Immediate(a)) }) ==> execute_step(s) == Ok::<
            (VmView, Option<Event>),
            InterpreterErrorSourceView,
        >((with_acc(s, Value::Number(a)), None)),
        s.cir == (Inst { opcode: OpCode::Sta, operand: Some(Operand::Addr(a)) }) ==> execute_step(s) == Ok::<
            (VmView, Option<Event>),
            InterpreterErrorSourceView,
        >((VmView { pc: s.pc, mar: s.mar, mdr: s.mdr, cir: s.cir, acc: s.acc, texts: write_text(s.texts, a as usize, s.acc.text()) }, None)),
{
    assert(with_acc(s, v) == VmView { acc: v, ..s });
    assert(with_acc(s, Value::Number(a)) == VmView { acc: Value::Number(a), ..s });
}

/// `BRA a` always jumps to `a`; `BRZ a` jumps only when the accumulator is
/// the number 0 and otherwise changes nothing; `BRP a` jumps when the
/// accumulator is a number of at least 0 and changes nothing when it is a
/// negative number.
pub proof fn law_branches(s: VmView, a: i64)
    requires
        0 <= a <= usize::MAX,
    ensures
        s.cir == (Inst { opcode: OpCode::Bra, operand: Some(Operand::Addr(a)) }) ==> execute_step(s) == Ok::<
            (VmView, Option<Event>),
            InterpreterErrorSourceView,
        >((with_pc(s, a as usize), None)),
        (s.cir == (Inst { opcode: OpCode::Brz, operand: Some(Operand::Addr(a)) }) && s.acc == Value::Number(0))
            ==> execute_step(s) == Ok::<(VmView, Option<Event>), InterpreterErrorSourceView>((with_pc(s, a as usize), None)),
        (s.cir.opcode == OpCode::Brz && s.acc != Value::Number(0)) ==> execute_step(s) == Ok::<
            (VmView, Option<Event>),
            InterpreterErrorSourceView,
        >((s, None)),
        (s.cir == (Inst { opcode: OpCode::Brp, operand: Some(Operand::Addr(a)) }) && s.acc is Number
            && s.acc->Number_0 >= 0) ==> execute_step(s) == Ok::<(VmView, Option<Event>), InterpreterErrorSourceView>(
            (with_pc(s, a as usize), None),
        ),
        (s.cir.opcode == OpCode::Brp && s.acc is Number && s.acc->Number_0 < 0) ==> execute_step(s) == Ok::<
            (VmView, Option<Event>),
            InterpreterErrorSourceView,
        >((s, None)),
{
    assert(with_pc(s, a as usize) == VmView { pc: a as usize, ..s });
}

/// `INP` asks for input and `OUT` hands over the accumulator; neither
/// changes the machine.
pub proof fn law_transfers(s: VmView)
    ensures
        s.cir.opcode == OpCode::Inp ==> execute_step(s) == Ok::<(VmView, Option<Event>), InterpreterErrorSourceView>(
            (s, Some(Event::Input)),
        ),
        s.cir.opcode == OpCode::Out ==> execute_step(s) == Ok::<(VmView, Option<Event>), InterpreterErrorSourceView>(
            (s, Some(Event::Output(s.acc))),
        ),
{
}

} // verus!
