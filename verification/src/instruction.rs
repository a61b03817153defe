//! Instructions, operands and the values that the machine computes with.
use vstd::prelude::*;

use crate::assembler::tokenizer::{Token, TokenView};
use crate::pattern::{
    digit_start_pattern, is_label_text, label_pattern, starts_with_ascii_digit, Pattern,
};
use crate::span::Span;
use crate::text::{
    ascii_lower, decimal, lemma_decimal_digits, lemma_parse_int_text, lemma_trim_int_text, is_ascii_digit,
    chars_eq_ignore_ascii_case, chars_of, eq_ignore_ascii_case, i64_to_decimal, int_text,
    parse_i64, parse_i64_chars, sub_chars, parse_i64_spec, push_str, string_from_chars, string_of, trim,
    trim_chars, IntErrorKind,
};

verus! {

/// The operations of the machine.
#[derive(Copy, Clone, Debug, Hash, PartialEq, Eq, Structural)]
pub enum OpCode {
    Hlt,
    Add,
    Sub,
    Sta,
    Lda,
    Bra,
    Brz,
    Brp,
    Inp,
    Out,
    Dat,
    Nop,
}

/// The opcode that a mnemonic names, compared without regard to ASCII case.
pub open spec fn mnemonic(s: Seq<char>) -> Result<OpCode, ()> {
    if eq_ignore_ascii_case(s, "hlt"@) {
        Ok(OpCode::Hlt)
    } else if eq_ignore_ascii_case(s, "add"@) {
        Ok(OpCode::Add)
    } else if eq_ignore_ascii_case(s, "sub"@) {
        Ok(OpCode::Sub)
    } else if eq_ignore_ascii_case(s, "sta"@) {
        Ok(OpCode::Sta)
    } else if eq_ignore_ascii_case(s, "lda"@) {
        Ok(OpCode::Lda)
    } else if eq_ignore_ascii_case(s, "bra"@) {
        Ok(OpCode::Bra)
    } else if eq_ignore_ascii_case(s, "brz"@) {
        Ok(OpCode::Brz)
    } else if eq_ignore_ascii_case(s, "brp"@) {
        Ok(OpCode::Brp)
    } else if eq_ignore_ascii_case(s, "inp"@) {
        Ok(OpCode::Inp)
    } else if eq_ignore_ascii_case(s, "out"@) {
        Ok(OpCode::Out)
    } else if eq_ignore_ascii_case(s, "dat"@) {
        Ok(OpCode::Dat)
    } else {
        Err(())
    }
}

impl OpCode {
    /// The number that encodes the operation.
    pub open spec fn code(self) -> i64 {
        match self {
            OpCode::Hlt => 0,
            OpCode::Add => 1,
            OpCode::Sub => 2,
            OpCode::Sta => 3,
            OpCode::Lda => 5,
            OpCode::Bra => 6,
            OpCode::Brz => 7,
            OpCode::Brp => 8,
            OpCode::Inp => 901,
            OpCode::Out => 902,
            OpCode::Dat => 0,
            OpCode::Nop => 4,
        }
    }

    pub fn opcode(&self) -> (r: i64)
        ensures
            r == self.code(),
    {
        match self {
            Self::Hlt => 0,
            Self::Add => 1,
            Self::Sub => 2,
            Self::Sta => 3,
            Self::Lda => 5,
            Self::Bra => 6,
            Self::Brz => 7,
            Self::Brp => 8,
            Self::Inp => 901,
            Self::Out => 902,
            Self::Dat => 0,
            Self::Nop => 4,
        }
    }

    /// The mnemonic, in upper case.
    pub open spec fn name(self) -> Seq<char> {
        match self {
            OpCode::Hlt => "HLT"@,
            OpCode::Add => "ADD"@,
            OpCode::Sub => "SUB"@,
            OpCode::Sta => "STA"@,
            OpCode::Lda => "LDA"@,
            OpCode::Bra => "BRA"@,
            OpCode::Brz => "BRZ"@,
            OpCode::Brp => "BRP"@,
            OpCode::Inp => "INP"@,
            OpCode::Out => "OUT"@,
            OpCode::Dat => "DAT"@,
            OpCode::Nop => "NOP"@,
        }
    }

    pub fn as_str(&self) -> (r: &'static str)
        ensures
            r@ == self.name(),
    {
        match self {
            Self::Hlt => "HLT",
            Self::Add => "ADD",
            Self::Sub => "SUB",
            Self::Sta => "STA",
            Self::Lda => "LDA",
            Self::Bra => "BRA",
            Self::Brz => "BRZ",
            Self::Brp => "BRP",
            Self::Inp => "INP",
            Self::Out => "OUT",
            Self::Dat => "DAT",
            Self::Nop => "NOP",
        }
    }

    /// The opcode that the mnemonic `s` names, in any ASCII case.
    pub fn from_str(s: &str) -> (r: Result<OpCode, ()>)
        ensures
            r == mnemonic(s@),
    {
        let cs = chars_of(s);
        let cs = cs.as_slice();
        if chars_eq_ignore_ascii_case(cs, "hlt") {
            Ok(Self::Hlt)
        } else if chars_eq_ignore_ascii_case(cs, "add") {
            Ok(Self::Add)
        } else if chars_eq_ignore_ascii_case(cs, "sub") {
            Ok(Self::Sub)
        } else if chars_eq_ignore_ascii_case(cs, "sta") {
            Ok(Self::Sta)
        } else if chars_eq_ignore_ascii_case(cs, "lda") {
            Ok(Self::Lda)
        } else if chars_eq_ignore_ascii_case(cs, "bra") {
            Ok(Self::Bra)
        } else if chars_eq_ignore_ascii_case(cs, "brz") {
            Ok(Self::Brz)
        } else if chars_eq_ignore_ascii_case(cs, "brp") {
            Ok(Self::Brp)
        } else if chars_eq_ignore_ascii_case(cs, "inp") {
            Ok(Self::Inp)
        } else if chars_eq_ignore_ascii_case(cs, "out") {
            Ok(Self::Out)
        } else if chars_eq_ignore_ascii_case(cs, "dat") {
            Ok(Self::Dat)
        } else {
            Err(())
        }
    }
}

/// The value of an operand as written: a label or a number.
#[derive(Debug)]
pub enum OperandValue {
    Label(String),
    Value(i64),
}

pub enum OperandValueView {
    Label(Seq<char>),
    Value(i64),
}

impl View for OperandValue {
    type V = OperandValueView;

    open spec fn view(&self) -> OperandValueView {
        match self {
            OperandValue::Label(l) => OperandValueView::Label(l@),
            OperandValue::Value(v) => OperandValueView::Value(*v),
        }
    }
}

/// Why an operand's text is not an operand.
#[derive(Debug)]
pub enum OperandParseError {
    InvalidIntegerLiteral(IntErrorKind),
    InvalidLabel(String),
}

pub enum OperandParseErrorView {
    InvalidIntegerLiteral(IntErrorKind),
    InvalidLabel(Seq<char>),
}

impl View for OperandParseError {
    type V = OperandParseErrorView;

    open spec fn view(&self) -> OperandParseErrorView {
        match self {
            OperandParseError::InvalidIntegerLiteral(k) => OperandParseErrorView::InvalidIntegerLiteral(*k),
            OperandParseError::InvalidLabel(l) => OperandParseErrorView::InvalidLabel(l@),
        }
    }
}

impl OperandParseError {
    pub fn clone(&self) -> (r: Self)
        ensures
            r@ == self@,
    {
        match self {
            OperandParseError::InvalidIntegerLiteral(k) => OperandParseError::InvalidIntegerLiteral(*k),
            OperandParseError::InvalidLabel(l) => OperandParseError::InvalidLabel(l.clone()),
        }
    }

    pub open spec fn spec_message(self) -> Seq<char> {
        match self {
            OperandParseError::InvalidIntegerLiteral(k) => k.spec_message(),
            OperandParseError::InvalidLabel(l) => "Invalid label "@ + l@,
        }
    }

    /// The message of the error.
    pub fn message(&self) -> (r: String)
        ensures
            r@ == self.spec_message(),
    {
        match self {
            OperandParseError::InvalidIntegerLiteral(k) => k.message(),
            OperandParseError::InvalidLabel(l) => {
                let mut r = string_of("Invalid label ");
                push_str(&mut r, l.as_str());
                r
            },
        }
    }
}

/// What `OperandValue::lifetime_from_str` gives for the text `s`: a label
/// when `s` is a name, an error when `s` neither is a name nor begins with a
/// digit, and otherwise the number that `s` denotes as an `i64`.
pub open spec fn operand_value_of(s: Seq<char>) -> Result<OperandValueView, OperandParseErrorView> {
    if is_label_text(s) {
        Ok(OperandValueView::Label(s))
    } else if !starts_with_ascii_digit(s) {
        Err(OperandParseErrorView::InvalidLabel(s))
    } else {
        match parse_i64_spec(s) {
            Ok(v) => Ok(OperandValueView::Value(v as i64)),
            Err(k) => Err(OperandParseErrorView::InvalidIntegerLiteral(k)),
        }
    }
}

pub open spec fn result_view<T: View, E: View>(r: Result<T, E>) -> Result<T::V, E::V> {
    match r {
        Ok(t) => Ok(t@),
        Err(e) => Err(e@),
    }
}

impl OperandValue {
    pub fn clone(&self) -> (r: Self)
        ensures
            r@ == self@,
    {
        match self {
            OperandValue::Label(l) => OperandValue::Label(l.clone()),
            OperandValue::Value(v) => OperandValue::Value(*v),
        }
    }

    /// Reads an operand's value: a label name, or a decimal number.
    pub fn lifetime_from_str(s: &str) -> (r: Result<Self, OperandParseError>)
        ensures
            result_view(r) == operand_value_of(s@),
    {
        proof {
            reveal_strlit("^[a-zA-Z_][a-zA-Z_0-9]*$");
            reveal_strlit("^[0-9]");
        }
        let label_re = match Pattern::new("^[a-zA-Z_][a-zA-Z_0-9]*$") {
            Ok(p) => p,
            Err(_) => {
                proof {
                    assert(false);
                }
                return Err(OperandParseError::InvalidLabel(string_of(s)));
            },
        };
        let number_start_re = match Pattern::new("^[0-9]") {
            Ok(p) => p,
            Err(_) => {
                proof {
                    assert(false);
                }
                return Err(OperandParseError::InvalidLabel(string_of(s)));
            },
        };
        if !label_re.is_match(s) {
            if !number_start_re.is_match(s) {
                return Err(OperandParseError::InvalidLabel(string_of(s)));
            }
            match parse_i64(s) {
                Ok(value) => Ok(OperandValue::Value(value)),
                Err(k) => Err(OperandParseError::InvalidIntegerLiteral(k)),
            }
        } else {
            Ok(OperandValue::Label(string_of(s)))
        }
    }

    pub open spec fn text(self) -> Seq<char> {
        match self {
            OperandValue::Label(l) => l@,
            OperandValue::Value(v) => int_text(v as int),
        }
    }

    /// The value as written in assembly.
    pub fn to_string(&self) -> (r: String)
        ensures
            r@ == self.text(),
    {
        match self {
            OperandValue::Label(l) => l.clone(),
            OperandValue::Value(v) => i64_to_decimal(*v),
        }
    }
}

/// How an operand is to be used: as an address, as the number itself, or as
/// the address of the address.
#[derive(Copy, Clone, Debug, Hash, PartialEq, Eq, Structural)]
pub enum Operand<T> {
    Addr(T),
    Immediate(T),
    Indirect(T),
}

impl<T: View> View for Operand<T> {
    type V = Operand<T::V>;

    open spec fn view(&self) -> Operand<T::V> {
        match self {
            Operand::Addr(v) => Operand::Addr(v@),
            Operand::Immediate(v) => Operand::Immediate(v@),
            Operand::Indirect(v) => Operand::Indirect(v@),
        }
    }
}

impl<T> Operand<T> {
    /// The operand's value, whatever its mode.
    pub open spec fn value(self) -> T {
        match self {
            Operand::Addr(v) => v,
            Operand::Immediate(v) => v,
            Operand::Indirect(v) => v,
        }
    }

    /// The operand with the same mode and the value `b`.
    pub open spec fn with_value<B>(self, b: B) -> Operand<B> {
        match self {
            Operand::Addr(_) => Operand::Addr(b),
            Operand::Immediate(_) => Operand::Immediate(b),
            Operand::Indirect(_) => Operand::Indirect(b),
        }
    }

    /// Applies `f` to the value, keeping the mode; an error of `f` is passed on.
    pub fn try_map_value<B, E, F: FnOnce(T) -> Result<B, E>>(self, f: F) -> (r: Result<Operand<B>, E>)
        requires
            call_requires(f, (self.value(),)),
        ensures
            r matches Ok(o) ==> call_ensures(f, (self.value(),), Ok::<B, E>(o.value())) && o
                == self.with_value(o.value()),
            r matches Err(e) ==> call_ensures(f, (self.value(),), Err::<B, E>(e)),
    {
        match self {
            Operand::Addr(v) => match f(v) {
                Ok(b) => Ok(Operand::Addr(b)),
                Err(e) => Err(e),
            },
            Operand::Immediate(v) => match f(v) {
                Ok(b) => Ok(Operand::Immediate(b)),
                Err(e) => Err(e),
            },
            Operand::Indirect(v) => match f(v) {
                Ok(b) => Ok(Operand::Indirect(b)),
                Err(e) => Err(e),
            },
        }
    }
}

/// What `Operand::<OperandValue>::lifetime_from_str` gives for `s`: `#` makes
/// an immediate operand, `@` an indirect one, anything else an address.
pub open spec fn operand_of(s: Seq<char>) -> Result<Operand<OperandValueView>, OperandParseErrorView> {
    if s.len() > 0 && s[0] == '#' {
        match operand_value_of(s.drop_first()) {
            Ok(v) => Ok(Operand::Immediate(v)),
            Err(e) => Err(e),
        }
    } else if s.len() > 0 && s[0] == '@' {
        match operand_value_of(s.drop_first()) {
            Ok(v) => Ok(Operand::Indirect(v)),
            Err(e) => Err(e),
        }
    } else {
        match operand_value_of(s) {
            Ok(v) => Ok(Operand::Addr(v)),
            Err(e) => Err(e),
        }
    }
}

impl Operand<OperandValue> {
    pub fn clone(&self) -> (r: Self)
        ensures
            r@ == self@,
    {
        match self {
            Operand::Addr(v) => Operand::Addr(v.clone()),
            Operand::Immediate(v) => Operand::Immediate(v.clone()),
            Operand::Indirect(v) => Operand::Indirect(v.clone()),
        }
    }

    /// Reads an operand: `#value`, `@value` or `value`.
    pub fn lifetime_from_str(s: &str) -> (r: Result<Self, OperandParseError>)
        ensures
            result_view(r) == operand_of(s@),
    {
        let cs = chars_of(s);
        if cs.len() > 0 && (cs[0] == '#' || cs[0] == '@') {
            let rest_chars = sub_chars(cs.as_slice(), 1, cs.len());
            let rest = string_from_chars(rest_chars.as_slice());
            assert(rest@ =~= s@.drop_first());
            let v = OperandValue::lifetime_from_str(rest.as_str())?;
            if cs[0] == '#' {
                Ok(Operand::Immediate(v))
            } else {
                Ok(Operand::Indirect(v))
            }
        } else {
            let v = OperandValue::lifetime_from_str(s)?;
            Ok(Operand::Addr(v))
        }
    }

    /// The operand as written in assembly.
    pub fn to_string(&self) -> (r: String)
        ensures
            r@ == operand_text(self@),
    {
        match self {
            Operand::Addr(v) => v.to_string(),
            Operand::Immediate(v) => {
                let mut r = string_of("#");
                let t = v.to_string();
                push_str(&mut r, t.as_str());
                r
            },
            Operand::Indirect(v) => {
                let mut r = string_of("@");
                let t = v.to_string();
                push_str(&mut r, t.as_str());
                r
            },
        }
    }
}

pub open spec fn operand_value_text(v: OperandValueView) -> Seq<char> {
    match v {
        OperandValueView::Label(l) => l,
        OperandValueView::Value(n) => int_text(n as int),
    }
}

/// An operand as written in assembly.
pub open spec fn operand_text(o: Operand<OperandValueView>) -> Seq<char> {
    match o {
        Operand::Addr(v) => operand_value_text(v),
        Operand::Immediate(v) => "#"@ + operand_value_text(v),
        Operand::Indirect(v) => "@"@ + operand_value_text(v),
    }
}

/// A numeric operand as written: the number, after `#` or `@` for the
/// immediate and indirect modes.
pub open spec fn number_operand_text(o: Operand<i64>) -> Seq<char> {
    match o {
        Operand::Addr(v) => int_text(v as int),
        Operand::Immediate(v) => "#"@ + int_text(v as int),
        Operand::Indirect(v) => "@"@ + int_text(v as int),
    }
}

/// What `s.parse::<Operand<i64>>()` gives.
pub open spec fn number_operand_of(s: Seq<char>) -> Result<Operand<i64>, IntErrorKind> {
    if s.len() > 0 && s[0] == '#' {
        match parse_i64_spec(s.drop_first()) {
            Ok(v) => Ok(Operand::Immediate(v as i64)),
            Err(e) => Err(e),
        }
    } else if s.len() > 0 && s[0] == '@' {
        match parse_i64_spec(s.drop_first()) {
            Ok(v) => Ok(Operand::Indirect(v as i64)),
            Err(e) => Err(e),
        }
    } else {
        match parse_i64_spec(s) {
            Ok(v) => Ok(Operand::Addr(v as i64)),
            Err(e) => Err(e),
        }
    }
}

impl Operand<i64> {
    /// The operand as written.
    pub fn to_string(&self) -> (r: String)
        ensures
            r@ == number_operand_text(*self),
    {
        match self {
            Operand::Addr(v) => i64_to_decimal(*v),
            Operand::Immediate(v) => {
                let mut r = string_of("#");
                let t = i64_to_decimal(*v);
                push_str(&mut r, t.as_str());
                r
            },
            Operand::Indirect(v) => {
                let mut r = string_of("@");
                let t = i64_to_decimal(*v);
                push_str(&mut r, t.as_str());
                r
            },
        }
    }

    /// Reads a numeric operand from the characters `cs`.
    pub fn from_chars(cs: &[char]) -> (r: Result<Self, IntErrorKind>)
        ensures
            r == number_operand_of(cs@),
    {
        if cs.len() > 0 && (cs[0] == '#' || cs[0] == '@') {
            let rest = sub_chars(cs, 1, cs.len());
            assert(rest@ =~= cs@.drop_first());
            let v = match parse_i64_chars(rest.as_slice()) {
                Ok(v) => v,
                Err(e) => return Err(e),
            };
            if cs[0] == '#' {
                Ok(Operand::Immediate(v))
            } else {
                Ok(Operand::Indirect(v))
            }
        } else {
            match parse_i64_chars(cs) {
                Ok(v) => Ok(Operand::Addr(v)),
                Err(e) => Err(e),
            }
        }
    }

    /// Reads a numeric operand: `#n`, `@n` or `n`.
    pub fn from_str(s: &str) -> (r: Result<Self, IntErrorKind>)
        ensures
            r == number_operand_of(s@),
    {
        let cs = chars_of(s);
        Self::from_chars(cs.as_slice())
    }
}

/// A number, or one of the three values that arithmetic can fall into.
#[derive(Copy, Clone, Debug, Hash, PartialEq, Eq, Structural)]
pub enum Value {
    Number(i64),
    NaN,
    InfPositive,
    InfNegative,
}

/// What `Value::from_str` reads from `s`.
pub open spec fn value_of_text(s: Seq<char>) -> Value {
    let t = trim(s);
    if t == "NaN"@ {
        Value::NaN
    } else if t == "Inf"@ || t == "+Inf"@ {
        Value::InfPositive
    } else if t == "-Inf"@ {
        Value::InfNegative
    } else {
        match parse_i64_spec(t) {
            Ok(n) => Value::Number(n as i64),
            Err(_) => Value::NaN,
        }
    }
}

impl Value {
    /// How the value is written.
    pub open spec fn text(self) -> Seq<char> {
        match self {
            Value::InfPositive => "Inf"@,
            Value::InfNegative => "-Inf"@,
            Value::NaN => "NaN"@,
            Value::Number(n) => int_text(n as int),
        }
    }

    pub fn to_string(&self) -> (r: String)
        ensures
            r@ == self.text(),
    {
        match self {
            Self::InfPositive => string_of("Inf"),
            Self::InfNegative => string_of("-Inf"),
            Self::NaN => string_of("NaN"),
            Self::Number(number) => i64_to_decimal(*number),
        }
    }

    /// Reads a value; text that is neither a special value nor an `i64`
    /// reads as `NaN`, so this never fails.
    pub fn from_str(s: &str) -> (r: Result<Value, ()>)
        ensures
            r == Ok::<Value, ()>(value_of_text(s@)),
    {
        let cs = chars_of(s);
        let t = trim_chars(cs.as_slice());
        let ts = string_from_chars(t.as_slice());
        if ts == string_of("NaN") {
            Ok(Self::NaN)
        } else if ts == string_of("Inf") || ts == string_of("+Inf") {
            Ok(Self::InfPositive)
        } else if ts == string_of("-Inf") {
            Ok(Self::InfNegative)
        } else {
            match parse_i64_chars(t.as_slice()) {
                Ok(n) => Ok(Self::Number(n)),
                Err(_) => Ok(Self::NaN),
            }
        }
    }

    /// `self + rhs`: numbers add (wrapping around the `i64` range), and
    /// otherwise the first special value among `self`, `rhs` wins.
    pub open spec fn plus(self, rhs: Value) -> Value {
        match (self, rhs) {
            (Value::Number(a), Value::Number(b)) => Value::Number(a.wrapping_add(b)),
            (Value::NaN, _) => Value::NaN,
            (Value::InfPositive, _) => Value::InfPositive,
            (Value::InfNegative, _) => Value::InfNegative,
            (_, Value::NaN) => Value::NaN,
            (_, Value::InfPositive) => Value::InfPositive,
            (_, Value::InfNegative) => Value::InfNegative,
        }
    }

    /// `self - rhs`, in the same way as [`Value::plus`].
    pub open spec fn minus(self, rhs: Value) -> Value {
        match (self, rhs) {
            (Value::Number(a), Value::Number(b)) => Value::Number(a.wrapping_sub(b)),
            (Value::NaN, _) => Value::NaN,
            (Value::InfPositive, _) => Value::InfPositive,
            (Value::InfNegative, _) => Value::InfNegative,
            (_, Value::NaN) => Value::NaN,
            (_, Value::InfPositive) => Value::InfPositive,
            (_, Value::InfNegative) => Value::InfNegative,
        }
    }

    pub fn add_assign(&mut self, rhs: Self)
        ensures
            *final(self) == old(self).plus(rhs),
    {
        *self = match (*self, rhs) {
            (Self::Number(a), Self::Number(b)) => Self::Number(a.wrapping_add(b)),
            (Self::NaN, _) => Self::NaN,
            (Self::InfPositive, _) => Self::InfPositive,
            (Self::InfNegative, _) => Self::InfNegative,
            (_, Self::NaN) => Self::NaN,
            (_, Self::InfPositive) => Self::InfPositive,
            (_, Self::InfNegative) => Self::InfNegative,
        }
    }

    pub fn sub_assign(&mut self, rhs: Self)
        ensures
            *final(self) == old(self).minus(rhs),
    {
        *self = match (*self, rhs) {
            (Self::Number(a), Self::Number(b)) => Self::Number(a.wrapping_sub(b)),
            (Self::NaN, _) => Self::NaN,
            (Self::InfPositive, _) => Self::InfPositive,
            (Self::InfNegative, _) => Self::InfNegative,
            (_, Self::NaN) => Self::NaN,
            (_, Self::InfPositive) => Self::InfPositive,
            (_, Self::InfNegative) => Self::InfNegative,
        }
    }
}

/// The number of decimal digits of `n` less one (0 below 10).
pub open spec fn log10(n: int) -> nat
    decreases n,
{
    if n < 10 {
        0
    } else {
        1 + log10(n / 10)
    }
}

/// Ten to the power `e`.
pub open spec fn pow10(e: nat) -> int
    decreases e,
{
    if e == 0 {
        1
    } else {
        10 * pow10((e - 1) as nat)
    }
}

pub proof fn lemma_pow10_mono(a: nat, b: nat)
    requires
        a <= b,
    ensures
        1 <= pow10(a) <= pow10(b),
    decreases b,
{
    if b > 0 {
        if a < b {
            lemma_pow10_mono(a, (b - 1) as nat);
        } else {
            lemma_pow10_mono((a - 1) as nat, (b - 1) as nat);
        }
    }
}

/// A number has at least `log10` of it digits past the first.
pub proof fn lemma_log10_bound(n: int)
    requires
        n >= 1,
    ensures
        pow10(log10(n)) <= n,
    decreases n,
{
    if n >= 10 {
        lemma_log10_bound(n / 10);
    }
}

/// A number below `10^(k+1)` has at most `k` digits past the first.
pub proof fn lemma_log10_upper(n: int, k: nat)
    requires
        1 <= n < pow10(k + 1),
    ensures
        log10(n) <= k,
    decreases n,
{
    if n >= 10 {
        if k == 0 {
            assert(pow10(1) == 10);
        } else {
            assert(n / 10 < pow10(k)) by {
                assert(pow10(k + 1) == 10 * pow10(k));
            }
            lemma_log10_upper(n / 10, (k - 1) as nat);
        }
    }
}

/// The quotient of two positive numbers, times the divisor, is at most the
/// dividend.
proof fn lemma_div_mul_le(v: int, l: int)
    requires
        v >= 0,
        l > 0,
    ensures
        (v / l) * l <= v,
        0 <= v / l <= v,
{
    vstd::arithmetic::div_mod::lemma_fundamental_div_mod(v, l);
    assert(0 <= v / l <= v) by (nonlinear_arith)
        requires
            v >= 0,
            l > 0,
            v == l * (v / l) + v % l,
            0 <= v % l < l,
    ;
    assert((v / l) * l <= v) by (nonlinear_arith)
        requires
            v == l * (v / l) + v % l,
            0 <= v % l,
    ;
}

/// `log10(v)` for a positive `v`.
fn ilog10(v: i64) -> (r: u32)
    requires
        v > 0,
    ensures
        r == log10(v as int),
        r <= 18,
{
    proof {
        assert(pow10(19) == 10000000000000000000) by {
            reveal_with_fuel(pow10, 20);
        }
        lemma_log10_upper(v as int, 18);
    }
    let mut n = v;
    let mut log: u32 = 0;
    while n >= 10
        invariant
            n > 0,
            log + log10(n as int) == log10(v as int),
            log + log10(n as int) <= 18,
        decreases n,
    {
        n = n / 10;
        log = log + 1;
    }
    log
}

fn pow10_i64(e: u32) -> (r: i64)
    requires
        pow10(e as nat) <= i64::MAX,
    ensures
        r == pow10(e as nat),
{
    let mut p: i64 = 1;
    let mut j: u32 = 0;
    while j < e
        invariant
            j <= e,
            p == pow10(j as nat),
            pow10(e as nat) <= i64::MAX,
        decreases e - j,
    {
        proof {
            lemma_pow10_mono((j + 1) as nat, e as nat);
        }
        p = p * 10;
        j = j + 1;
    }
    p
}

/// The power of ten by which an operation's number is shifted to make room
/// for the address `a`: one more than the digits of `a` past the first.
pub open spec fn address_shift(a: i64) -> nat {
    (if a > 0 { log10(a as int) } else { 0 }) + 1
}

/// The value that an instruction encodes: the operation's number followed
/// by the digits of its address; `DAT` encodes its operand itself.
pub open spec fn inst_value(inst: Inst) -> Value {
    match inst.opcode {
        OpCode::Dat => match inst.operand {
            None => Value::Number(0),
            Some(Operand::Addr(a)) => Value::Number(a),
            _ => Value::NaN,
        },
        op => match inst.operand {
            Some(Operand::Addr(a)) => Value::Number((op.code() * pow10(address_shift(a)) + a) as i64),
            _ => Value::Number(op.code()),
        },
    }
}

/// The encoding of `inst` leaves the `i64` range.
pub open spec fn inst_value_overflows(inst: Inst) -> bool {
    &&& inst.opcode != OpCode::Dat
    &&& inst.operand matches Some(Operand::Addr(a))
    &&& {
        let p = pow10(address_shift(a));
        ||| p > i64::MAX
        ||| inst.opcode.code() * p > i64::MAX
        ||| inst.opcode.code() * p + a > i64::MAX
        ||| inst.opcode.code() * p + a < i64::MIN
    }
}

/// Encodes an instruction as a value.
pub fn inst_into_value(inst: Inst) -> (r: Value)
    requires
        !inst_value_overflows(inst),
    ensures
        r == inst_value(inst),
{
    match inst.opcode {
        OpCode::Dat => match inst.operand {
            None => Value::Number(0),
            Some(Operand::Addr(a)) => Value::Number(a),
            _ => Value::NaN,
        },
        op => match inst.operand {
            Some(Operand::Addr(addr)) => {
                let power: u32 = if addr > 0 {
                    ilog10(addr)
                } else {
                    0
                } + 1;
                let p = pow10_i64(power);
                proof {
                    lemma_pow10_mono(0, power as nat);
                }
                assert(0 <= op.code() * p) by (nonlinear_arith)
                    requires
                        0 <= op.code(),
                        1 <= p,
                ;
                let opcode = op.opcode() * p;
                Value::Number(opcode + addr)
            },
            _ => Value::Number(op.opcode()),
        },
    }
}

/// The operation, the number `start` and the scale `log` that
/// `value_into_inst` reads from the positive number `v`.
pub open spec fn decode_parts(v: int) -> (OpCode, int, int) {
    let log = log10(v) as int;
    let start = v / log;
    if start == 1 {
        (OpCode::Add, start, log)
    } else if start == 2 {
        (OpCode::Sub, start, log)
    } else if start == 3 {
        (OpCode::Sta, start, log)
    } else if start == 5 {
        (OpCode::Lda, start, log)
    } else if start == 6 {
        (OpCode::Bra, start, log)
    } else if start == 7 {
        (OpCode::Brz, start, log)
    } else if start == 8 {
        (OpCode::Brp, start, log)
    } else if start == 9 && log >= 2 {
        let log2 = log - 2;
        if v / log2 == 901 {
            (OpCode::Inp, 901, log2)
        } else if v / log2 == 902 {
            (OpCode::Out, 90264, log2)
        } else {
            (OpCode::Nop, start, log)
        }
    } else {
        (OpCode::Nop, start, log)
    }
}

/// The instruction that `value_into_inst` reads from a value: 0 halts, a
/// negative number or a special value does nothing, and a positive number
/// is split by `decode_parts`.
pub open spec fn value_inst(value: Value) -> Inst {
    match value {
        Value::Number(v) => if v == 0 {
            Inst { opcode: OpCode::Hlt, operand: None }
        } else if v < 0 {
            Inst { opcode: OpCode::Nop, operand: None }
        } else {
            let (op, start, log) = decode_parts(v as int);
            Inst {
                opcode: op,
                operand: if log > start {
                    Some(Operand::Addr((v - start * log) as i64))
                } else {
                    None
                },
            }
        },
        _ => Inst { opcode: OpCode::Nop, operand: None },
    }
}

/// A number from 1 to 9, whose digit count past the first is 0: reading it
/// would divide by zero.
pub open spec fn value_inst_undefined(value: Value) -> bool {
    value matches Value::Number(v) && 1 <= v <= 9
}

/// Decodes a value as an instruction.
pub fn value_into_inst(value: Value) -> (r: Inst)
    requires
        !value_inst_undefined(value),
    ensures
        r == value_inst(value),
{
    match value {
        Value::Number(v) => {
            if v == 0 {
                Inst { opcode: OpCode::Hlt, operand: None }
            } else if v < 0 {
                Inst { opcode: OpCode::Nop, operand: None }
            } else {
                let mut log = ilog10(v);
                proof {
                    lemma_log10_bound(v as int);
                    if log == 0 {
                        assert(v < 10);
                    }
                }
                assert(log > 0) by {
                    if log == 0 {
                        assert(pow10(1) == 10);
                    }
                }
                let mut start = v / (log as i64);
                let opcode = if start == 1 {
                    OpCode::Add
                } else if start == 2 {
                    OpCode::Sub
                } else if start == 3 {
                    OpCode::Sta
                } else if start == 5 {
                    OpCode::Lda
                } else if start == 6 {
                    OpCode::Bra
                } else if start == 7 {
                    OpCode::Brz
                } else if start == 8 {
                    OpCode::Brp
                } else if start == 9 {
                    match log.checked_sub(2) {
                        Some(log_2) => {
                            assert(log_2 != 0) by {
                                if log == 2 {
                                    reveal_with_fuel(pow10, 3);
                                    assert(pow10(2) == 100);
                                    assert(pow10(log10(v as int)) <= v);
                                    assert(v >= 100);
                                    assert(start == v / 2);
                                }
                            }
                            if v / (log_2 as i64) == 901 {
                                start = 901;
                                log = log_2;
                                OpCode::Inp
                            } else if v / (log_2 as i64) == 902 {
                                start = 90264;
                                log = log_2;
                                OpCode::Out
                            } else {
                                OpCode::Nop
                            }
                        },
                        None => OpCode::Nop,
                    }
                } else {
                    OpCode::Nop
                };
                proof {
                    lemma_div_mul_le(v as int, log as int);
                    if start == 901 || start == 90264 {
                        assert(start * log <= 90264 * 18) by (nonlinear_arith)
                            requires
                                0 <= log <= 18,
                                0 <= start <= 90264,
                        ;
                    }
                }
                let operand = if log as i64 > start {
                    Some(Operand::Addr(v - start * log as i64))
                } else {
                    None
                };
                Inst { opcode, operand }
            }
        },
        _ => Inst { opcode: OpCode::Nop, operand: None },
    }
}

/// A machine instruction: an operation and, for most operations, an operand.
#[derive(Copy, Clone, Debug, Hash, PartialEq, Eq, Structural)]
pub struct Inst {
    pub opcode: OpCode,
    pub operand: Option<Operand<i64>>,
}

impl Inst {
    /// The value that encodes the instruction.
    pub fn into(self) -> (r: Value)
        requires
            !inst_value_overflows(self),
        ensures
            r == inst_value(self),
    {
        inst_into_value(self)
    }

    /// The instruction that a value encodes.
    pub fn from(value: Value) -> (r: Inst)
        requires
            !value_inst_undefined(value),
        ensures
            r == value_inst(value),
    {
        value_into_inst(value)
    }

    pub fn new(opcode: OpCode, operand: Option<Operand<i64>>) -> (r: Self)
        ensures
            r == (Inst { opcode, operand }),
    {
        Inst { opcode, operand }
    }

    /// How the instruction is stored as text: the opcode's number followed by
    /// the operand as written.
    pub open spec fn text(self) -> Seq<char> {
        int_text(self.opcode.code() as int) + match self.operand {
            Some(op) => number_operand_text(op),
            None => Seq::empty(),
        }
    }

    pub fn to_string(&self) -> (r: String)
        ensures
            r@ == self.text(),
    {
        let mut r = i64_to_decimal(self.opcode.opcode());
        match self.operand {
            Some(op) => {
                let t = op.to_string();
                push_str(&mut r, t.as_str());
            },
            None => {},
        }
        assert(r@ =~= self.text());
        r
    }
}

/// An instruction as parsed, before its labels are resolved.
#[derive(Debug)]
pub struct RawInst {
    pub label: Option<Token>,
    pub opcode: (Span, OpCode),
    pub operand: Option<(Span, Operand<OperandValue>)>,
}

#[verifier::ext_equal]
pub struct RawInstView {
    pub label: Option<TokenView>,
    pub opcode: (Span, OpCode),
    pub operand: Option<(Span, Operand<OperandValueView>)>,
}

impl View for RawInst {
    type V = RawInstView;

    open spec fn view(&self) -> RawInstView {
        RawInstView {
            label: match self.label {
                Some(t) => Some(t@),
                None => None,
            },
            opcode: self.opcode,
            operand: match self.operand {
                Some((s, o)) => Some((s, o@)),
                None => None,
            },
        }
    }
}

impl RawInst {
    pub fn clone(&self) -> (r: Self)
        ensures
            r@ == self@,
    {
        RawInst {
            label: match &self.label {
                Some(t) => Some(t.clone()),
                None => None,
            },
            opcode: self.opcode,
            operand: match &self.operand {
                Some((s, o)) => Some((*s, o.clone())),
                None => None,
            },
        }
    }
}

// ---------------------------------------------------------------------------
// Reading back what was written
// ---------------------------------------------------------------------------

/// The text of a number begins with `-` or a digit.
pub proof fn lemma_int_text_start(n: int)
    ensures
        int_text(n).len() >= 1,
        int_text(n)[0] == '-' || is_ascii_digit(int_text(n)[0]),
        int_text(n)[0] != '#' && int_text(n)[0] != '@',
{
    let m: nat = if n < 0 { (-n) as nat } else { n as nat };
    lemma_decimal_digits(m);
    if n >= 0 {
        assert(is_ascii_digit(decimal(m)[0]));
    }
}

/// An operand reads back from the text it is written as:
/// `Operand::<i64>::from_str(o.to_string())` gives `o`.
pub proof fn law_number_operand_text(o: Operand<i64>)
    ensures
        number_operand_of(number_operand_text(o)) == Ok::<Operand<i64>, IntErrorKind>(o),
{
    reveal_strlit("#");
    reveal_strlit("@");
    match o {
        Operand::Addr(v) => {
            lemma_parse_int_text(v);
            lemma_int_text_start(v as int);
        },
        Operand::Immediate(v) => {
            lemma_parse_int_text(v);
            assert(("#"@ + int_text(v as int)).drop_first() =~= int_text(v as int));
        },
        Operand::Indirect(v) => {
            lemma_parse_int_text(v);
            assert(("@"@ + int_text(v as int)).drop_first() =~= int_text(v as int));
        },
    }
}

/// A value reads back from the text it is written as:
/// `Value::from_str(v.to_string())` gives `v`.
pub proof fn law_value_text(v: Value)
    ensures
        value_of_text(v.text()) == v,
{
    reveal_strlit("Inf");
    reveal_strlit("-Inf");
    reveal_strlit("+Inf");
    reveal_strlit("NaN");
    match v {
        Value::Number(n) => {
            let t = int_text(n as int);
            lemma_trim_int_text(n as int);
            lemma_parse_int_text(n);
            lemma_int_text_start(n as int);
            let m: nat = if n < 0 { (-n) as nat } else { n as nat };
            lemma_decimal_digits(m);
            if n < 0 {
                assert(t[1] == decimal(m)[0]);
                assert(is_ascii_digit(t[1]));
                assert(t != "-Inf"@ && t != "+Inf"@ && t != "Inf"@ && t != "NaN"@) by {
                    if t.len() == 4 {
                        assert(t[1] != "-Inf"@[1]);
                        assert(t[0] != "+Inf"@[0]);
                    }
                    if t.len() == 3 {
                        assert(t[0] != "Inf"@[0]);
                        assert(t[0] != "NaN"@[0]);
                    }
                }
            } else {
                assert(t[0] != "-Inf"@[0] && t[0] != "+Inf"@[0] && t[0] != "Inf"@[0] && t[0] != "NaN"@[0]);
            }
        },
        Value::InfPositive => {
            assert(trim("Inf"@) == "Inf"@);
        },
        Value::InfNegative => {
            assert(trim("-Inf"@) == "-Inf"@);
            assert("-Inf"@ != "Inf"@ && "-Inf"@ != "+Inf"@ && "-Inf"@ != "NaN"@) by {
                assert("-Inf"@.len() != "Inf"@.len());
                assert("-Inf"@[0] != "+Inf"@[0]);
            }
        },
        Value::NaN => {
            assert(trim("NaN"@) == "NaN"@);
        },
    }
}

/// `s` and `w` spelt with three letters, compared letter by letter.
proof fn lemma_three_letters(s: Seq<char>, w: Seq<char>)
    requires
        s.len() == 3,
        w.len() == 3,
    ensures
        eq_ignore_ascii_case(s, w) <==> (ascii_lower(s[0]) == w[0] as u32 && ascii_lower(s[1]) == w[1] as u32
            && ascii_lower(s[2]) == w[2] as u32),
{
    if ascii_lower(s[0]) == w[0] as u32 && ascii_lower(s[1]) == w[1] as u32 && ascii_lower(s[2]) == w[2] as u32 {
        assert forall|i: int| 0 <= i < s.len() implies ascii_lower(#[trigger] s[i]) == w[i] as u32 by {
            if i == 0 {
            } else if i == 1 {
            } else {
            }
        }
    }
}

/// Each operation's mnemonic reads back as the operation, whatever the case
/// of its letters (the no-operation, which has no mnemonic of its own, reads
/// back as nothing).
pub proof fn law_mnemonic(op: OpCode)
    ensures
        op != OpCode::Nop ==> mnemonic(op.name()) == Ok::<OpCode, ()>(op),
        op == OpCode::Nop ==> mnemonic(op.name()) is Err,
{
    reveal_strlit("hlt");
    reveal_strlit("add");
    reveal_strlit("sub");
    reveal_strlit("sta");
    reveal_strlit("lda");
    reveal_strlit("bra");
    reveal_strlit("brz");
    reveal_strlit("brp");
    reveal_strlit("inp");
    reveal_strlit("out");
    reveal_strlit("dat");
    reveal_strlit("HLT");
    reveal_strlit("ADD");
    reveal_strlit("SUB");
    reveal_strlit("STA");
    reveal_strlit("LDA");
    reveal_strlit("BRA");
    reveal_strlit("BRZ");
    reveal_strlit("BRP");
    reveal_strlit("INP");
    reveal_strlit("OUT");
    reveal_strlit("DAT");
    reveal_strlit("NOP");
    let n = op.name();
    assert(n.len() == 3);
    lemma_three_letters(n, "hlt"@);
    lemma_three_letters(n, "add"@);
    lemma_three_letters(n, "sub"@);
    lemma_three_letters(n, "sta"@);
    lemma_three_letters(n, "lda"@);
    lemma_three_letters(n, "bra"@);
    lemma_three_letters(n, "brz"@);
    lemma_three_letters(n, "brp"@);
    lemma_three_letters(n, "inp"@);
    lemma_three_letters(n, "out"@);
    lemma_three_letters(n, "dat"@);
}

// ---------------------------------------------------------------------------
// Arithmetic on values
// ---------------------------------------------------------------------------

/// On numbers, `+` and `-` are integer addition and subtraction wherever the
/// result fits an `i64`, and wrap around the `i64` range otherwise, so that
/// subtracting a number and adding it back (or the other way round) gives
/// the first number again.
pub proof fn law_number_arithmetic(a: i64, b: i64)
    ensures
        i64::MIN <= a + b <= i64::MAX ==> Value::Number(a).plus(Value::Number(b)) == Value::Number((a + b) as i64),
        i64::MIN <= a - b <= i64::MAX ==> Value::Number(a).minus(Value::Number(b)) == Value::Number((a - b) as i64),
        a + b > i64::MAX ==> Value::Number(a).plus(Value::Number(b)) == Value::Number((a + b - 0x1_0000_0000_0000_0000) as i64),
        a + b < i64::MIN ==> Value::Number(a).plus(Value::Number(b)) == Value::Number((a + b + 0x1_0000_0000_0000_0000) as i64),
        a - b > i64::MAX ==> Value::Number(a).minus(Value::Number(b)) == Value::Number((a - b - 0x1_0000_0000_0000_0000) as i64),
        a - b < i64::MIN ==> Value::Number(a).minus(Value::Number(b)) == Value::Number((a - b + 0x1_0000_0000_0000_0000) as i64),
        Value::Number(a).minus(Value::Number(b)).plus(Value::Number(b)) == Value::Number(a),
        Value::Number(a).plus(Value::Number(b)).minus(Value::Number(b)) == Value::Number(a),
{
}

/// A special value on the left is kept whatever is added or subtracted; a
/// number on the left gives way to a special value on the right, which
/// keeps its sign.
pub proof fn law_special_arithmetic(x: Value, y: Value)
    ensures
        !(x is Number) ==> x.plus(y) == x && x.minus(y) == x,
        (x is Number && !(y is Number)) ==> x.plus(y) == y && x.minus(y) == y,
{
}

} // verus!
