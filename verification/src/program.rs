//! A whole program: from its text to its instructions, its listing, and the
//! memory it is loaded into.
use vstd::prelude::*;

use crate::assembler::labels::resolve_all;
use crate::assembler::parser::raw_views;
use crate::assembler::{
    assemble_lmc_asm, front_outcome, source_map_of, source_map_panics, source_map_would_panic,
    try_tokenize_and_parse_lmc_asm, FrontOutcome, SourceMap,
};
use crate::error::{error_views, CompilerErrorView, CompilerResult};
use crate::instruction::{operand_text, Inst, RawInst, RawInstView};
use crate::instruction::{OpCode, Operand, Value};
use crate::memory::{
    inst_storable, lemma_cell_inst_text, read_inst, read_value, text_at, DynamicMemoryStorage,
    MemoryError, MemoryStorage,
};
use crate::pattern::{leading_digits, lemma_leading_digits_len, starts_with, value_prefix};
use crate::text::{
    accumulate_digits, decimal, int_text, is_ascii_digit, lemma_accumulate_concat, lemma_accumulate_decimal,
    lemma_decimal_digits, parse_i64_spec, IntErrorKind,
};
use crate::span::Span;
use crate::text::{byte_len, push_char, push_str, str_byte_len, string_of};

verus! {

// ---------------------------------------------------------------------------
// Program text
// ---------------------------------------------------------------------------

/// `s` with every tab replaced by four spaces.
pub open spec fn tabs_replaced(s: Seq<char>) -> Seq<char>
    decreases s.len(),
{
    if s.len() == 0 {
        seq![]
    } else {
        tabs_replaced(s.drop_last()) + if s.last() == '\t' {
            seq![' ', ' ', ' ', ' ']
        } else {
            seq![s.last()]
        }
    }
}

/// The program text as the assembler reads it: every tab becomes four
/// spaces.
pub fn replace_tabs(source: &str) -> (r: String)
    ensures
        r@ == tabs_replaced(source@),
{
    let cs = crate::text::chars_of(source);
    let mut r = String::new();
    let mut k: usize = 0;
    assert(cs@.take(0) =~= Seq::<char>::empty());
    while k < cs.len()
        invariant
            cs@ == source@,
            k <= cs@.len(),
            r@ == tabs_replaced(cs@.take(k as int)),
        decreases cs@.len() - k,
    {
        assert(cs@.take(k as int + 1).drop_last() =~= cs@.take(k as int));
        let ghost before = r@;
        if cs[k] == '\t' {
            push_str(&mut r, "    ");
            proof {
                reveal_strlit("    ");
            }
            assert(r@ =~= before + seq![' ', ' ', ' ', ' ']);
        } else {
            push_char(&mut r, cs[k]);
            assert(r@ =~= before + seq![cs@[k as int]]);
        }
        k = k + 1;
    }
    assert(cs@.take(cs@.len() as int) =~= cs@);
    r
}

// ---------------------------------------------------------------------------
// Assembling
// ---------------------------------------------------------------------------

/// What assembling a program gives.
pub enum BuildOutcome {
    Built(Seq<Inst>, Map<usize, Span>),
    Failed(Seq<CompilerErrorView>),
    Panics,
}

/// Assembling `source`: reading it, then resolving its labels and mapping
/// its instructions to their sources.
pub open spec fn build_outcome(source: Seq<char>, macros: bool) -> BuildOutcome {
    match front_outcome(source, macros) {
        FrontOutcome::Panics => BuildOutcome::Panics,
        FrontOutcome::Failed(es) => BuildOutcome::Failed(es),
        FrontOutcome::Parsed(insts, syms) => if source_map_panics(insts) {
            BuildOutcome::Panics
        } else {
            let (done, errors) = resolve_all(insts, syms);
            if errors.len() > 0 {
                BuildOutcome::Failed(errors)
            } else {
                BuildOutcome::Built(done, source_map_of(insts))
            }
        },
    }
}

/// Assembles the program `source` into machine instructions and the map
/// from their addresses to the source; `None` where the program is input
/// that the assembler does not accept.
pub fn assemble_program(source: &str, macros: bool) -> (r: Option<CompilerResult<(Vec<Inst>, SourceMap)>>)
    ensures
        r is None <==> build_outcome(source@, macros) is Panics,
        ({
            match build_outcome(source@, macros) {
                BuildOutcome::Built(insts, map) => r matches Some(Ok((v, m))) && v@ == insts && m@ == map,
                BuildOutcome::Failed(es) => r matches Some(Err(v)) && error_views(v@) == es,
                BuildOutcome::Panics => true,
            }
        }),
{
    match try_tokenize_and_parse_lmc_asm(source, macros) {
        None => None,
        Some(Err(e)) => Some(Err(e)),
        Some(Ok((insts, table))) => {
            if source_map_would_panic(insts.as_slice()) {
                None
            } else {
                Some(assemble_lmc_asm(insts, table))
            }
        },
    }
}

// ---------------------------------------------------------------------------
// Listing
// ---------------------------------------------------------------------------

/// The length in bytes of the longest label of `insts`, if any has one.
pub open spec fn max_label_len(insts: Seq<RawInstView>) -> Option<nat>
    decreases insts.len(),
{
    if insts.len() == 0 {
        None
    } else {
        let before = max_label_len(insts.drop_last());
        match insts.last().label {
            Some(l) => {
                let n = byte_len(l.source);
                match before {
                    Some(m) => Some(if m >= n { m } else { n }),
                    None => Some(n),
                }
            },
            None => before,
        }
    }
}

/// The width of the label column: two more than the longest label, or
/// nothing where no instruction has a label.
pub open spec fn label_padding(insts: Seq<RawInstView>) -> nat {
    match max_label_len(insts) {
        Some(m) => m + 2,
        None => 0,
    }
}

pub open spec fn spaces(n: nat) -> Seq<char> {
    Seq::new(n, |i: int| ' ')
}

/// One line of the listing: the label padded to the label column, the
/// opcode's mnemonic, and the operand after two spaces.
pub open spec fn listing_line(inst: RawInstView, pad: nat) -> Seq<char> {
    let label = match inst.label {
        Some(l) => l.source,
        None => seq![],
    };
    label + spaces((pad - byte_len(label)) as nat) + inst.opcode.1.name() + match inst.operand {
        Some((_, o)) => "  "@ + operand_text(o),
        None => seq![],
    }
}

proof fn lemma_max_label_len(insts: Seq<RawInstView>, k: int)
    requires
        0 <= k < insts.len(),
        insts[k].label is Some,
    ensures
        max_label_len(insts) matches Some(m) && byte_len(insts[k].label->Some_0.source) <= m,
    decreases insts.len(),
{
    if k < insts.len() - 1 {
        lemma_max_label_len(insts.drop_last(), k);
    }
}

/// The lines of the listing of a parsed program, one per instruction.
pub fn listing_lines(insts: &[RawInst]) -> (r: Vec<String>)
    requires
        max_label_len(raw_views(insts@)) matches Some(m) ==> m + 2 <= usize::MAX,
    ensures
        r@.len() == insts@.len(),
        forall|k: int|
            0 <= k < insts@.len() ==> (#[trigger] r@[k])@ == listing_line(
                raw_views(insts@)[k],
                label_padding(raw_views(insts@)),
            ),
{
    let ghost v = raw_views(insts@);
    let mut max: Option<usize> = None;
    let mut k: usize = 0;
    while k < insts.len()
        invariant
            v == raw_views(insts@),
            k <= insts@.len(),
            max_label_len(v.take(k as int)) == match max {
                Some(m) => Some(m as nat),
                None => None::<nat>,
            },
        decreases insts@.len() - k,
    {
        assert(v.take(k as int + 1).drop_last() =~= v.take(k as int));
        assert(v.take(k as int + 1).last() == insts@[k as int]@);
        match &insts[k].label {
            Some(l) => {
                let n = str_byte_len(l.source.as_str());
                max = match max {
                    Some(m) => Some(if m >= n { m } else { n }),
                    None => Some(n),
                };
            },
            None => {},
        }
        k = k + 1;
    }
    assert(v.take(insts@.len() as int) =~= v);
    let pad: usize = match max {
        Some(m) => m + 2,
        None => 0,
    };
    let mut lines: Vec<String> = Vec::new();
    let mut k: usize = 0;
    while k < insts.len()
        invariant
            v == raw_views(insts@),
            k <= insts@.len(),
            pad == label_padding(v),
            lines@.len() == k,
            forall|j: int| 0 <= j < k ==> (#[trigger] lines@[j])@ == listing_line(v[j], pad as nat),
        decreases insts@.len() - k,
    {
        let inst = &insts[k];
        assert(v[k as int] == inst@);
        let mut line = match &inst.label {
            Some(l) => l.source.clone(),
            None => String::new(),
        };
        let ghost label = line@;
        let used = match &inst.label {
            Some(l) => {
                proof {
                    lemma_max_label_len(v, k as int);
                }
                str_byte_len(l.source.as_str())
            },
            None => 0,
        };
        assert(used == byte_len(label));
        let mut j: usize = used;
        while j < pad
            invariant
                used <= j,
                j <= pad || j == used,
                line@ == label + spaces((j - used) as nat),
            decreases pad - j,
        {
            let ghost before = line@;
            push_char(&mut line, ' ');
            j = j + 1;
            assert(spaces((j - used) as nat) =~= spaces((j - 1 - used) as nat).push(' '));
            assert(line@ =~= label + spaces((j - used) as nat));
        }
        assert(pad >= used ==> line@ =~= label + spaces((pad - used) as nat));
        push_str(&mut line, inst.opcode.1.as_str());
        match &inst.operand {
            Some((_, o)) => {
                push_str(&mut line, "  ");
                let t = o.to_string();
                push_str(&mut line, t.as_str());
            },
            None => {},
        }
        assert(line@ =~= listing_line(v[k as int], pad as nat));
        lines.push(line);
        k = k + 1;
    }
    lines
}

/// The listing of the program `source` after its macros are expanded;
/// `None` where the program is input that the assembler does not accept or
/// a label is too long to be padded.
pub fn expand_program(source: &str, macros: bool) -> (r: Option<CompilerResult<Vec<String>>>)
    ensures
        front_outcome(source@, macros) is Panics ==> r is None,
        ({
            match front_outcome(source@, macros) {
                FrontOutcome::Parsed(insts, _) => match r {
                    Some(Ok(lines)) => lines@.len() == insts.len() && forall|k: int|
                        0 <= k < insts.len() ==> (#[trigger] lines@[k])@ == listing_line(insts[k], label_padding(insts)),
                    None => max_label_len(insts) matches Some(m) && m + 2 > usize::MAX,
                    _ => false,
                },
                FrontOutcome::Failed(es) => r matches Some(Err(v)) && error_views(v@) == es,
                FrontOutcome::Panics => true,
            }
        }),
{
    match try_tokenize_and_parse_lmc_asm(source, macros) {
        None => None,
        Some(Err(e)) => Some(Err(e)),
        Some(Ok((insts, _))) => {
            let ghost v = raw_views(insts@);
            let mut max: usize = 0;
            let mut k: usize = 0;
            let mut any = false;
            while k < insts.len()
                invariant
                    v == raw_views(insts@),
                    k <= insts@.len(),
                    max_label_len(v.take(k as int)) == if any {
                        Some(max as nat)
                    } else {
                        None::<nat>
                    },
                decreases insts@.len() - k,
            {
                assert(v.take(k as int + 1).drop_last() =~= v.take(k as int));
                assert(v.take(k as int + 1).last() == insts@[k as int]@);
                match &insts[k].label {
                    Some(l) => {
                        let n = str_byte_len(l.source.as_str());
                        if !any || n > max {
                            max = n;
                        }
                        any = true;
                    },
                    None => {},
                }
                k = k + 1;
            }
            assert(v.take(insts@.len() as int) =~= v);
            if any && max > usize::MAX - 2 {
                return None;
            }
            Some(Ok(listing_lines(insts.as_slice())))
        },
    }
}

// ---------------------------------------------------------------------------
// Loading
// ---------------------------------------------------------------------------

/// The texts of a memory that holds `insts` from address 0 on.
pub open spec fn program_texts(insts: Seq<Inst>) -> Seq<Seq<char>> {
    insts.map_values(|i: Inst| i.text())
}

/// A memory holding the instructions from address 0 on.
pub fn load_program(insts: &[Inst]) -> (r: DynamicMemoryStorage<String>)
    ensures
        r.texts() == program_texts(insts@),
{
    let mut memory: DynamicMemoryStorage<String> = DynamicMemoryStorage::new();
    assert(memory.texts() =~= program_texts(insts@.take(0)));
    let mut k: usize = 0;
    while k < insts.len()
        invariant
            k <= insts@.len(),
            memory.texts() == program_texts(insts@.take(k as int)),
        decreases insts@.len() - k,
    {
        let ghost before = memory.texts();
        let _ = memory.set_inst(k, insts[k]);
        assert(memory.texts() =~= program_texts(insts@.take(k as int + 1)));
        k = k + 1;
    }
    assert(insts@.take(insts@.len() as int) =~= insts@);
    memory
}

/// Each storable instruction of a loaded program reads back from its cell.
pub proof fn law_loaded_instruction_reads_back(insts: Seq<Inst>, k: usize)
    requires
        k < insts.len(),
        inst_storable(insts[k as int]),
    ensures
        read_inst(program_texts(insts), k) == Ok::<Inst, MemoryError>(insts[k as int]),
{
    lemma_cell_inst_text(insts[k as int]);
    assert(text_at(program_texts(insts), k) == insts[k as int].text());
}

/// The cell of a `DAT n` with `n >= 0` reads as the value `n`.
pub proof fn law_loaded_data_reads_back(insts: Seq<Inst>, k: usize, n: i64)
    requires
        k < insts.len(),
        insts[k as int] == (Inst { opcode: OpCode::Dat, operand: Some(Operand::Addr(n)) }),
        n >= 0,
    ensures
        read_value(program_texts(insts), k) == Ok::<Value, MemoryError>(Value::Number(n)),
{
    reveal_strlit("Inf");
    reveal_strlit("-Inf");
    reveal_strlit("NaN");
    reveal_with_fuel(decimal, 2);
    let t = insts[k as int].text();
    assert(text_at(program_texts(insts), k) == t);
    let d = decimal(n as nat);
    lemma_decimal_digits(n as nat);
    assert(int_text(0) =~= seq!['0']);
    assert(t =~= seq!['0'] + d);
    // The text is all digits, led by `0`.
    assert(t[0] == '0');
    assert(is_ascii_digit(t[0]));
    lemma_leading_digits_len(t);
    let ld = leading_digits(t);
    assert(ld > 0);
    assert(!starts_with(t, seq!['I', 'n', 'f'])) by {
        if starts_with(t, seq!['I', 'n', 'f']) {
            assert(t.take(3)[0] == 'I');
        }
    }
    assert(!starts_with(t, seq!['N', 'a', 'N'])) by {
        if starts_with(t, seq!['N', 'a', 'N']) {
            assert(t.take(3)[0] == 'N');
        }
    }
    assert(t.skip(0) =~= t);
    let p = t.take(ld as int);
    assert(value_prefix(t) == Some(p));
    assert(p[0] == '0');
    assert(p != "Inf"@ && p != "-Inf"@ && p != "NaN"@) by {
        if p == "Inf"@ || p == "-Inf"@ || p == "NaN"@ {
            assert(p[0] == '0');
        }
    }
    // Reading the digits: the leading `0` adds nothing.
    reveal_with_fuel(accumulate_digits, 2);
    lemma_accumulate_concat(seq!['0'], d, 0, false, i64::MIN as int, i64::MAX as int);
    assert(seq!['0'].drop_first() =~= Seq::<char>::empty());
    lemma_accumulate_decimal(n as nat, false, i64::MIN as int, i64::MAX as int);
    assert(parse_i64_spec(t) == Ok::<int, IntErrorKind>(n as int));
}

} // verus!
