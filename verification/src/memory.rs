//! The machine's memory: cells that hold their contents as text.
use vstd::prelude::*;

use crate::instruction::{
    law_number_operand_text, lemma_int_text_start, number_operand_of, number_operand_text, Inst, OpCode,
    Operand, Value,
};
use crate::pattern::{lemma_leading_digits_len, leading_digits, starts_with, value_prefix, value_prefix_pattern, Pattern};
use crate::text::{
    int_text, is_ascii_digit, lemma_decimal_digits, lemma_parse_int_text,
    chars_of, decimal, parse_i64, parse_i64_spec, string_of, sub_chars, usize_to_decimal,
    utf8_width, char_utf8_len, push_str,
};

verus! {

/// Why a memory access failed.
#[derive(Copy, Clone, Debug, PartialEq, Eq, Structural)]
pub enum MemoryError {
    /// The address cannot be given a cell; the second number is the highest
    /// address in use.
    AddrOutOfRange(usize, usize),
    /// The cell at the address holds text that does not read as what was
    /// asked for.
    MalformedCell(usize),
}

pub type MemoryResult<T> = Result<T, MemoryError>;

impl MemoryError {
    pub open spec fn spec_message(self) -> Seq<char> {
        match self {
            MemoryError::AddrOutOfRange(a, b) => "attempted to access address `"@ + decimal(a as nat)
                + "` which outside the range of valid addresses, `0-"@ + decimal(b as nat) + "`"@,
            MemoryError::MalformedCell(a) => "the cell at address `"@ + decimal(a as nat)
                + "` does not hold a readable value"@,
        }
    }

    /// The message of the error.
    pub fn message(&self) -> (r: String)
        ensures
            r@ == self.spec_message(),
    {
        match self {
            MemoryError::AddrOutOfRange(a, b) => {
                let mut r = string_of("attempted to access address `");
                let t = usize_to_decimal(*a);
                push_str(&mut r, t.as_str());
                push_str(&mut r, "` which outside the range of valid addresses, `0-");
                let t = usize_to_decimal(*b);
                push_str(&mut r, t.as_str());
                push_str(&mut r, "`");
                r
            },
            MemoryError::MalformedCell(a) => {
                let mut r = string_of("the cell at address `");
                let t = usize_to_decimal(*a);
                push_str(&mut r, t.as_str());
                push_str(&mut r, "` does not hold a readable value");
                r
            },
        }
    }
}

/// What a cell holding the text `s` reads as, as a value.  `None` stands for
/// a text that is not a value (a number too large, or text that does not
/// begin like a value).
pub open spec fn cell_value(s: Seq<char>) -> Option<Value> {
    if s.len() == 0 {
        Some(Value::Number(0))
    } else {
        match value_prefix(s) {
            None => None,
            Some(m) => if m == "Inf"@ {
                Some(Value::InfPositive)
            } else if m == "-Inf"@ {
                Some(Value::InfNegative)
            } else if m == "NaN"@ {
                Some(Value::NaN)
            } else {
                match parse_i64_spec(s) {
                    Ok(n) => Some(Value::Number(n as i64)),
                    Err(_) => None,
                }
            },
        }
    }
}

/// The operation that the leading digit `c` of a cell selects, for the
/// operations that take an operand.
pub open spec fn operand_opcode(c: char) -> Option<OpCode> {
    if c == '1' { Some(OpCode::Add) }
    else if c == '2' { Some(OpCode::Sub) }
    else if c == '3' { Some(OpCode::Sta) }
    else if c == '5' { Some(OpCode::Lda) }
    else if c == '6' { Some(OpCode::Bra) }
    else if c == '7' { Some(OpCode::Brz) }
    else if c == '8' { Some(OpCode::Brp) }
    else { None }
}

/// What a cell whose text begins with `9` reads as: the next two bytes pick
/// input (`01`), output (`02`) or no operation.  `None` where those bytes are
/// missing or cut a character in two.
pub open spec fn nine_inst(s: Seq<char>) -> Option<Inst> {
    if s.len() < 2 {
        None
    } else if utf8_width(s[1]) == 1 {
        if s.len() >= 3 && utf8_width(s[2]) == 1 {
            if s[1] == '0' && s[2] == '1' {
                Some(Inst { opcode: OpCode::Inp, operand: None })
            } else if s[1] == '0' && s[2] == '2' {
                Some(Inst { opcode: OpCode::Out, operand: None })
            } else {
                Some(Inst { opcode: OpCode::Nop, operand: None })
            }
        } else {
            None
        }
    } else if utf8_width(s[1]) == 2 {
        Some(Inst { opcode: OpCode::Nop, operand: None })
    } else {
        None
    }
}

/// What a cell holding the text `s` reads as, as an instruction: the first
/// digit selects the operation and the rest is the operand.  `None` stands
/// for a text that does not read (a missing or malformed operand, or a first
/// character of more than one byte).
pub open spec fn cell_inst(s: Seq<char>) -> Option<Inst> {
    if s.len() == 0 {
        Some(Inst { opcode: OpCode::Hlt, operand: None })
    } else if utf8_width(s[0]) != 1 {
        None
    } else if s[0] == '0' {
        Some(Inst { opcode: OpCode::Hlt, operand: None })
    } else if operand_opcode(s[0]) is Some {
        match number_operand_of(s.drop_first()) {
            Ok(op) => Some(Inst { opcode: operand_opcode(s[0])->0, operand: Some(op) }),
            Err(_) => None,
        }
    } else if s[0] == '9' {
        nine_inst(s)
    } else {
        Some(Inst { opcode: OpCode::Nop, operand: None })
    }
}

/// A memory cell.  Its contents are text; what it reads as follows from that
/// text (see [`cell_value`] and [`cell_inst`]).
pub trait StorageCell: Sized {
    /// The text the cell holds.
    spec fn text(&self) -> Seq<char>;

    /// A fresh cell, holding `0`.
    fn empty() -> (r: Self)
        ensures
            r.text() == seq!['0'];

    fn get_value(&self) -> (r: Option<Value>)
        ensures
            r == cell_value(self.text());

    fn get_inst(&self) -> (r: Option<Inst>)
        ensures
            r == cell_inst(self.text());

    /// Stores a value as its text.
    fn set_value(&mut self, value: Value)
        ensures
            final(self).text() == value.text();

    /// Stores an instruction as its text.
    fn set_inst(&mut self, inst: Inst)
        ensures
            final(self).text() == inst.text();
}

impl StorageCell for String {
    open spec fn text(&self) -> Seq<char> {
        self@
    }

    fn empty() -> (r: Self) {
        let r = string_of("0");
        proof {
            reveal_strlit("0");
        }
        r
    }

    fn get_value(&self) -> (r: Option<Value>) {
        if self.as_str().is_empty() {
            return Some(Value::Number(0));
        }
        proof {
            reveal_strlit("^-?(Inf|NaN|[0-9]+)");
        }
        let value_re = match Pattern::new("^-?(Inf|NaN|[0-9]+)") {
            Ok(p) => p,
            Err(_) => {
                proof {
                    assert(false);
                }
                return None;
            },
        };
        let value = match value_re.find(self.as_str()) {
            Some(m) => m,
            None => return None,
        };
        if value == string_of("Inf") {
            Some(Value::InfPositive)
        } else if value == string_of("-Inf") {
            Some(Value::InfNegative)
        } else if value == string_of("NaN") {
            Some(Value::NaN)
        } else {
            match parse_i64(self.as_str()) {
                Ok(n) => Some(Value::Number(n)),
                Err(_) => None,
            }
        }
    }

    fn get_inst(&self) -> (r: Option<Inst>) {
        let cs = chars_of(self.as_str());
        if cs.len() == 0 {
            return Some(Inst { opcode: OpCode::Hlt, operand: None });
        }
        let c = cs[0];
        if char_utf8_len(c) != 1 {
            return None;
        }
        let opcode = match c {
            '0' => return Some(Inst { opcode: OpCode::Hlt, operand: None }),
            '1' => OpCode::Add,
            '2' => OpCode::Sub,
            '3' => OpCode::Sta,
            '5' => OpCode::Lda,
            '6' => OpCode::Bra,
            '7' => OpCode::Brz,
            '8' => OpCode::Brp,
            '9' => {
                if cs.len() < 2 {
                    return None;
                }
                let w1 = char_utf8_len(cs[1]);
                if w1 == 1 {
                    if cs.len() >= 3 && char_utf8_len(cs[2]) == 1 {
                        if cs[1] == '0' && cs[2] == '1' {
                            return Some(Inst { opcode: OpCode::Inp, operand: None });
                        } else if cs[1] == '0' && cs[2] == '2' {
                            return Some(Inst { opcode: OpCode::Out, operand: None });
                        } else {
                            return Some(Inst { opcode: OpCode::Nop, operand: None });
                        }
                    } else {
                        return None;
                    }
                } else if w1 == 2 {
                    return Some(Inst { opcode: OpCode::Nop, operand: None });
                } else {
                    return None;
                }
            },
            _ => return Some(Inst { opcode: OpCode::Nop, operand: None }),
        };
        let rest = sub_chars(cs.as_slice(), 1, cs.len());
        assert(rest@ =~= self@.drop_first());
        match Operand::<i64>::from_chars(rest.as_slice()) {
            Ok(op) => Some(Inst { opcode, operand: Some(op) }),
            Err(_) => None,
        }
    }

    fn set_value(&mut self, value: Value) {
        *self = value.to_string();
    }

    fn set_inst(&mut self, inst: Inst) {
        *self = inst.to_string();
    }
}

/// The text of the cell at `addr` among the allocated cells `texts`; cells
/// not yet allocated hold `0`.
pub open spec fn text_at(texts: Seq<Seq<char>>, addr: usize) -> Seq<char> {
    if addr < texts.len() {
        texts[addr as int]
    } else {
        seq!['0']
    }
}

/// What reading the value at `addr` gives.
pub open spec fn read_value(texts: Seq<Seq<char>>, addr: usize) -> MemoryResult<Value> {
    match cell_value(text_at(texts, addr)) {
        Some(v) => Ok(v),
        None => Err(MemoryError::MalformedCell(addr)),
    }
}

/// What reading the instruction at `addr` gives.
pub open spec fn read_inst(texts: Seq<Seq<char>>, addr: usize) -> MemoryResult<Inst> {
    match cell_inst(text_at(texts, addr)) {
        Some(i) => Ok(i),
        None => Err(MemoryError::MalformedCell(addr)),
    }
}

/// Whether a write to `addr` can be done: a cell can be made for every
/// address below `usize::MAX`.
pub open spec fn writable(texts: Seq<Seq<char>>, addr: usize) -> bool {
    addr < texts.len() || addr < usize::MAX
}

/// The error of a write that cannot be done.
pub open spec fn write_error(texts: Seq<Seq<char>>, addr: usize) -> MemoryError {
    MemoryError::AddrOutOfRange(addr, if texts.len() > 0 { (texts.len() - 1) as usize } else { 0 })
}

/// The allocated cells after writing `t` at `addr`: the cells up to `addr`
/// are made (holding `0`) if they were missing, then `addr` gets `t`.
pub open spec fn write_text(texts: Seq<Seq<char>>, addr: usize, t: Seq<char>) -> Seq<Seq<char>> {
    let grown = if addr < texts.len() {
        texts
    } else {
        texts + Seq::new((addr + 1 - texts.len()) as nat, |i: int| seq!['0'])
    };
    grown.update(addr as int, t)
}

/// A memory: cells addressed from 0, read and written as values or as
/// instructions.
pub trait MemoryStorage: Sized {
    /// The texts of the cells allocated so far; every other cell holds `0`.
    spec fn texts(&self) -> Seq<Seq<char>>;

    /// The number of cells allocated so far.
    fn texts_len(&self) -> (r: usize)
        ensures
            r == self.texts().len();

    fn get_value(&self, addr: usize) -> (r: MemoryResult<Value>)
        ensures
            r == read_value(self.texts(), addr);

    fn get_inst(&self, addr: usize) -> (r: MemoryResult<Inst>)
        ensures
            r == read_inst(self.texts(), addr);

    fn set_value(&mut self, addr: usize, value: Value) -> (r: MemoryResult<()>)
        ensures
            writable(old(self).texts(), addr) ==> r is Ok && final(self).texts() == write_text(
                old(self).texts(),
                addr,
                value.text(),
            ),
            !writable(old(self).texts(), addr) ==> r == Err::<(), MemoryError>(
                write_error(old(self).texts(), addr),
            ) && final(self).texts() == old(self).texts();

    fn set_inst(&mut self, addr: usize, inst: Inst) -> (r: MemoryResult<()>)
        ensures
            writable(old(self).texts(), addr) ==> r is Ok && final(self).texts() == write_text(
                old(self).texts(),
                addr,
                inst.text(),
            ),
            !writable(old(self).texts(), addr) ==> r == Err::<(), MemoryError>(
                write_error(old(self).texts(), addr),
            ) && final(self).texts() == old(self).texts();
}

/// A memory that grows to the highest address written.
#[derive(Debug)]
pub struct DynamicMemoryStorage<C> {
    memory: Vec<C>,
}

impl<C> DynamicMemoryStorage<C> {
    pub fn new() -> (r: Self)
        ensures
            r.cells() == Seq::<C>::empty(),
    {
        Self { memory: Vec::new() }
    }

    /// The cells allocated so far.
    pub closed spec fn cells(&self) -> Seq<C> {
        self.memory@
    }
}

impl<C: StorageCell> DynamicMemoryStorage<C> {
    /// The texts of the allocated cells.
    pub open spec fn cell_texts(&self) -> Seq<Seq<char>> {
        self.cells().map_values(|c: C| c.text())
    }

    /// Makes the cells up to `addr` exist.
    fn expand_for(&mut self, addr: usize)
        requires
            addr < usize::MAX,
        ensures
            final(self).cells().len() == if addr < old(self).cells().len() {
                old(self).cells().len()
            } else {
                (addr + 1) as nat
            },
            forall|i: int| 0 <= i < old(self).cells().len() ==> (#[trigger] final(self).cells()[i]) == old(self).cells()[i],
            forall|i: int|
                old(self).cells().len() <= i < final(self).cells().len() ==> (#[trigger] final(self).cells()[i]).text() == seq!['0'],
    {
        let ghost start = self.memory@;
        while self.memory.len() <= addr
            invariant
                addr < usize::MAX,
                start.len() <= self.memory@.len() <= if addr < start.len() { start.len() } else { (addr + 1) as nat },
                forall|i: int| 0 <= i < start.len() ==> (#[trigger] self.memory@[i]) == start[i],
                forall|i: int| start.len() <= i < self.memory@.len() ==> (#[trigger] self.memory@[i]).text() == seq!['0'],
            decreases addr + 1 - self.memory@.len(),
        {
            self.memory.push(C::empty());
        }
    }
}

impl<C: StorageCell> MemoryStorage for DynamicMemoryStorage<C> {
    open spec fn texts(&self) -> Seq<Seq<char>> {
        self.cell_texts()
    }

    fn texts_len(&self) -> (r: usize) {
        self.memory.len()
    }

    fn get_value(&self, addr: usize) -> (r: MemoryResult<Value>) {
        let read = if addr < self.memory.len() {
            self.memory[addr].get_value()
        } else {
            let empty = C::empty();
            empty.get_value()
        };
        match read {
            Some(v) => Ok(v),
            None => Err(MemoryError::MalformedCell(addr)),
        }
    }

    fn get_inst(&self, addr: usize) -> (r: MemoryResult<Inst>) {
        let read = if addr < self.memory.len() {
            self.memory[addr].get_inst()
        } else {
            let empty = C::empty();
            empty.get_inst()
        };
        match read {
            Some(i) => Ok(i),
            None => Err(MemoryError::MalformedCell(addr)),
        }
    }

    fn set_value(&mut self, addr: usize, value: Value) -> (r: MemoryResult<()>) {
        let len = self.memory.len();
        if addr >= len && addr == usize::MAX {
            return Err(MemoryError::AddrOutOfRange(addr, if len > 0 { len - 1 } else { 0 }));
        }
        let ghost before = self.cell_texts();
        self.expand_for(addr);
        let mut cell = self.memory.remove(addr);
        cell.set_value(value);
        self.memory.insert(addr, cell);
        proof {
            assert(self.cell_texts() =~= write_text(before, addr, value.text()));
        }
        Ok(())
    }

    fn set_inst(&mut self, addr: usize, inst: Inst) -> (r: MemoryResult<()>) {
        let len = self.memory.len();
        if addr >= len && addr == usize::MAX {
            return Err(MemoryError::AddrOutOfRange(addr, if len > 0 { len - 1 } else { 0 }));
        }
        let ghost before = self.cell_texts();
        self.expand_for(addr);
        let mut cell = self.memory.remove(addr);
        cell.set_inst(inst);
        self.memory.insert(addr, cell);
        proof {
            assert(self.cell_texts() =~= write_text(before, addr, inst.text()));
        }
        Ok(())
    }
}

// ---------------------------------------------------------------------------
// Reading back what was written
// ---------------------------------------------------------------------------

/// A cell holding the text of a value reads as that value.
pub proof fn lemma_cell_value_text(v: Value)
    ensures
        cell_value(v.text()) == Some(v),
{
    reveal_strlit("Inf");
    reveal_strlit("-Inf");
    reveal_strlit("NaN");
    match v {
        Value::Number(n) => {
            let t = int_text(n as int);
            lemma_parse_int_text(n);
            lemma_int_text_start(n as int);
            let m: nat = if n < 0 { (-n) as nat } else { n as nat };
            lemma_decimal_digits(m);
            let k: int = if t[0] == '-' { 1 } else { 0 };
            let rest = t.skip(k);
            if n < 0 {
                assert(rest =~= decimal(m));
            } else {
                assert(rest =~= t);
            }
            assert(is_ascii_digit(rest[0]));
            assert(!starts_with(rest, seq!['I', 'n', 'f'])) by {
                if starts_with(rest, seq!['I', 'n', 'f']) {
                    assert(rest.take(3)[0] == 'I');
                }
            }
            assert(!starts_with(rest, seq!['N', 'a', 'N'])) by {
                if starts_with(rest, seq!['N', 'a', 'N']) {
                    assert(rest.take(3)[0] == 'N');
                }
            }
            assert(leading_digits(rest) > 0);
            let ld = leading_digits(rest);
            lemma_leading_digits_len(rest);
            assert(value_prefix(t) == Some(t.take(k + ld)));
            let p = t.take(k + ld);
            assert(rest[0] == t[k]);
            assert(p[k] == t[k]);
            assert(p != "Inf"@ && p != "-Inf"@ && p != "NaN"@) by {
                if p == "Inf"@ || p == "NaN"@ {
                    assert(k == 0);
                    assert(p[0] == "Inf"@[0] || p[0] == "NaN"@[0]);
                }
                if p == "-Inf"@ {
                    assert(p[0] == '-');
                    assert(k == 1);
                    assert(p[1] == 'I');
                }
            }
        },
        Value::InfPositive => {
            assert("Inf"@.skip(0) =~= "Inf"@);
            assert("Inf"@.take(3) =~= seq!['I', 'n', 'f']);
            assert("Inf"@.take(3) =~= "Inf"@);
        },
        Value::InfNegative => {
            assert("-Inf"@.skip(1) =~= seq!['I', 'n', 'f']);
            assert("-Inf"@.skip(1).take(3) =~= seq!['I', 'n', 'f']);
            assert("-Inf"@.take(4) =~= "-Inf"@);
            assert("-Inf"@ != "Inf"@);
        },
        Value::NaN => {
            assert("NaN"@.skip(0) =~= "NaN"@);
            assert("NaN"@.take(3) =~= seq!['N', 'a', 'N']);
            assert("NaN"@.take(3) =~= "NaN"@);
            assert("NaN"@ != "Inf"@) by {
                assert("NaN"@[0] != "Inf"@[0]);
            }
            assert(!starts_with("NaN"@, seq!['I', 'n', 'f'])) by {
                assert("NaN"@.take(3)[0] == 'N');
            }
        },
    }
}

/// The instructions that a cell holds exactly: an operation that takes an
/// operand with one, or `HLT`, `INP`, `OUT` or the no-operation without one.
pub open spec fn inst_storable(i: Inst) -> bool {
    match i.opcode {
        OpCode::Add | OpCode::Sub | OpCode::Sta | OpCode::Lda | OpCode::Bra | OpCode::Brz | OpCode::Brp => i.operand
            is Some,
        OpCode::Hlt | OpCode::Inp | OpCode::Out | OpCode::Nop => i.operand is None,
        OpCode::Dat => false,
    }
}

/// A cell holding the text of a storable instruction reads as that
/// instruction.
pub proof fn lemma_cell_inst_text(i: Inst)
    requires
        inst_storable(i),
    ensures
        cell_inst(i.text()) == Some(i),
{
    reveal_with_fuel(decimal, 3);
    let t = i.text();
    let c = i.opcode.code();
    match i.operand {
        Some(o) => {
            law_number_operand_text(o);
            assert(int_text(c as int) =~= seq![crate::text::digit_char(c as int)]);
            assert(t.drop_first() =~= number_operand_text(o));
        },
        None => {
            assert(t =~= int_text(c as int));
        },
    }
}

/// Reading a value back from a cell it was written to gives the value.
pub proof fn law_value_read_after_write(texts: Seq<Seq<char>>, addr: usize, v: Value)
    requires
        writable(texts, addr),
    ensures
        read_value(write_text(texts, addr, v.text()), addr) == Ok::<Value, MemoryError>(v),
{
    lemma_cell_value_text(v);
    let w = write_text(texts, addr, v.text());
    assert(text_at(w, addr) == v.text());
}

/// Reading a storable instruction back from a cell it was written to gives
/// the instruction.
pub proof fn law_inst_read_after_write(texts: Seq<Seq<char>>, addr: usize, i: Inst)
    requires
        writable(texts, addr),
        inst_storable(i),
    ensures
        read_inst(write_text(texts, addr, i.text()), addr) == Ok::<Inst, MemoryError>(i),
{
    lemma_cell_inst_text(i);
    let w = write_text(texts, addr, i.text());
    assert(text_at(w, addr) == i.text());
}

/// A write leaves every other cell as it was.
pub proof fn law_write_frame(texts: Seq<Seq<char>>, addr: usize, t: Seq<char>, other: usize)
    requires
        writable(texts, addr),
        other != addr,
    ensures
        text_at(write_text(texts, addr, t), other) == text_at(texts, other),
        read_value(write_text(texts, addr, t), other) == read_value(texts, other),
        read_inst(write_text(texts, addr, t), other) == read_inst(texts, other),
{
}

} // verus!
