//! Replacing labels by the addresses that they name.
use vstd::prelude::*;

use crate::assembler::parser::{find_symbol, raw_views, SymbolTable, SymbolView};
use crate::error::{error_views, CompilerError, CompilerErrorView, CompilerResult};
use crate::instruction::{result_view, Inst, Operand, OperandValue, OperandValueView, RawInst, RawInstView};
use crate::span::Span;

verus! {

/// The number that an operand value stands for: a number is itself, a label
/// the address of its symbol.  `span` is where the operand was written.
pub open spec fn resolve_value(v: OperandValueView, syms: Seq<SymbolView>, span: Span) -> Result<i64, CompilerErrorView> {
    match v {
        OperandValueView::Value(n) => Ok(n),
        OperandValueView::Label(l) => match find_symbol(syms, l) {
            Some(s) => Ok(s.addr as i64),
            None => Err(CompilerErrorView::UndefinedLabel(l, span)),
        },
    }
}

/// The machine instruction that `inst` becomes.
pub open spec fn resolve_inst(inst: RawInstView, syms: Seq<SymbolView>) -> Result<Inst, CompilerErrorView> {
    match inst.operand {
        None => Ok(Inst { opcode: inst.opcode.1, operand: None }),
        Some((span, o)) => match resolve_value(o.value(), syms, span) {
            Ok(n) => Ok(Inst { opcode: inst.opcode.1, operand: Some(o.with_value(n)) }),
            Err(e) => Err(e),
        },
    }
}

/// The instructions that resolve, and the errors of those that do not, in
/// order.
pub open spec fn resolve_all(insts: Seq<RawInstView>, syms: Seq<SymbolView>) -> (Seq<Inst>, Seq<CompilerErrorView>)
    decreases insts.len(),
{
    if insts.len() == 0 {
        (seq![], seq![])
    } else {
        let (done, errors) = resolve_all(insts.drop_last(), syms);
        match resolve_inst(insts.last(), syms) {
            Ok(i) => (done.push(i), errors),
            Err(e) => (done, errors.push(e)),
        }
    }
}

fn resolve_operand_value(v: OperandValue, table: &SymbolTable, span: Span) -> (r: Result<i64, CompilerError>)
    ensures
        result_view(r) == resolve_value(v@, table@, span),
{
    match v {
        OperandValue::Value(n) => Ok(n),
        OperandValue::Label(label) => match table.get(label.as_str()) {
            Some(symbol) => Ok(symbol.addr as i64),
            None => Err(CompilerError::UndefinedLabel(label, span)),
        },
    }
}

proof fn lemma_value_view(o: Operand<OperandValue>)
    ensures
        o@.value() == o.value()@,
        forall|n: i64| #[trigger] o@.with_value(n) == o.with_value(n),
{
}

/// Replaces each label operand by the address of its symbol.  Every
/// undefined label is reported.
pub fn process_labels(insts: Vec<RawInst>, symbol_table: SymbolTable) -> (r: CompilerResult<Vec<Inst>>)
    ensures
        ({
            let (done, errors) = resolve_all(raw_views(insts@), symbol_table@);
            if errors.len() > 0 {
                r matches Err(es) && error_views(es@) == errors
            } else {
                r matches Ok(v) && v@ == done
            }
        }),
{
    let ghost rv = raw_views(insts@);
    let mut new_insts: Vec<Inst> = Vec::new();
    let mut errors: Vec<CompilerError> = Vec::new();
    let mut k: usize = 0;
    while k < insts.len()
        invariant
            rv == raw_views(insts@),
            k <= insts@.len(),
            ({
                let (done, errs) = resolve_all(rv.take(k as int), symbol_table@);
                &&& new_insts@ == done
                &&& error_views(errors@) == errs
            }),
        decreases insts@.len() - k,
    {
        assert(rv.take(k as int + 1).drop_last() =~= rv.take(k as int));
        let inst = &insts[k];
        assert(rv[k as int] == inst@);
        let ghost want = resolve_inst(inst@, symbol_table@);
        let operand = match &inst.operand {
            None => Ok(None),
            Some((span, o)) => {
                let sp = *span;
                let table = &symbol_table;
                let f = |v: OperandValue| -> (res: Result<i64, CompilerError>)
                    ensures
                        result_view(res) == resolve_value(v@, table@, sp),
                    { resolve_operand_value(v, table, sp) };
                proof {
                    lemma_value_view(*o);
                }
                match o.clone().try_map_value(f) {
                    Ok(m) => Ok(Some(m)),
                    Err(e) => Err(e),
                }
            },
        };
        match operand {
            Ok(operand) => {
                new_insts.push(Inst { opcode: inst.opcode.1, operand });
            },
            Err(e) => {
                let ghost e0 = errors@;
                errors.push(e);
                assert(error_views(errors@) =~= error_views(e0).push(errors@.last()@));
            },
        }
        k = k + 1;
    }
    assert(rv.take(insts@.len() as int) =~= rv);
    if errors.len() > 0 {
        Err(errors)
    } else {
        Ok(new_insts)
    }
}

proof fn lemma_resolve_counts(insts: Seq<RawInstView>, syms: Seq<SymbolView>)
    ensures
        resolve_all(insts, syms).0.len() + resolve_all(insts, syms).1.len() == insts.len(),
    decreases insts.len(),
{
    if insts.len() > 0 {
        lemma_resolve_counts(insts.drop_last(), syms);
    }
}

/// Where every label is defined, each instruction becomes exactly one
/// machine instruction, with the same operation.
pub proof fn law_resolve_keeps_instructions(insts: Seq<RawInstView>, syms: Seq<SymbolView>)
    requires
        resolve_all(insts, syms).1.len() == 0,
    ensures
        resolve_all(insts, syms).0.len() == insts.len(),
        forall|k: int| 0 <= k < insts.len() ==> (#[trigger] resolve_all(insts, syms).0[k]).opcode == insts[k].opcode.1,
    decreases insts.len(),
{
    lemma_resolve_counts(insts, syms);
    if insts.len() > 0 {
        lemma_resolve_counts(insts.drop_last(), syms);
        law_resolve_keeps_instructions(insts.drop_last(), syms);
    }
}

} // verus!
