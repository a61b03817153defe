//! Removal of instructions that do nothing.
use vstd::prelude::*;

use crate::assembler::parser::{raw_views, SymbolTable};
use crate::error::CompilerResult;
use crate::instruction::{OpCode, Operand, OperandValue, OperandValueView, RawInst, RawInstView};
use crate::span::Span;

verus! {

/// Instruction `i` is `ADD #0` and is followed by an unlabelled instruction,
/// into which it can be folded.
pub open spec fn foldable(insts: Seq<RawInstView>, i: int) -> bool {
    &&& 0 <= i
    &&& i + 1 < insts.len()
    &&& insts[i].opcode.1 == OpCode::Add
    &&& insts[i].operand matches Some((_, Operand::Immediate(OperandValueView::Value(0))))
    &&& insts[i + 1].label is None
}

/// `ADD #0` folded into the next instruction: the label of the first with the
/// opcode and operand of the second.
pub open spec fn fold_at(insts: Seq<RawInstView>, i: int) -> Seq<RawInstView> {
    insts.take(i).push(RawInstView { label: insts[i].label, ..insts[i + 1] }) + insts.skip(i + 2)
}

/// Scanning from instruction `i` on, each `ADD #0` that can be folded is
/// folded into the instruction after it, and the scan moves on by one.
pub open spec fn optimize_from(insts: Seq<RawInstView>, i: int) -> Seq<RawInstView>
    decreases insts.len() - i,
{
    if i < 0 || i >= insts.len() {
        insts
    } else if foldable(insts, i) {
        optimize_from(fold_at(insts, i), i + 1)
    } else {
        optimize_from(insts, i + 1)
    }
}

/// What `optimize_lmc_asm` makes of `insts`.
pub open spec fn optimized(insts: Seq<RawInstView>) -> Seq<RawInstView> {
    optimize_from(insts, 0)
}

/// Folding never lengthens a program.
pub proof fn lemma_optimize_len(insts: Seq<RawInstView>, i: int)
    ensures
        optimize_from(insts, i).len() <= insts.len(),
    decreases insts.len() - i,
{
    if 0 <= i < insts.len() {
        if foldable(insts, i) {
            lemma_optimize_len(fold_at(insts, i), i + 1);
        } else {
            lemma_optimize_len(insts, i + 1);
        }
    }
}

/// Folds each `ADD #0` that an unlabelled instruction follows into that
/// instruction.  The symbol table is handed back unchanged.
pub fn optimize_lmc_asm(raw_insts: Vec<RawInst>, symbol_table: SymbolTable) -> (r: CompilerResult<
    (Vec<RawInst>, SymbolTable),
>)
    ensures
        r matches Ok((insts, table)) && raw_views(insts@) == optimized(raw_views(raw_insts@)) && table@
            == symbol_table@ && (symbol_table.wf() ==> table.wf()),
{
    let ghost goal = optimized(raw_views(raw_insts@));
    let mut insts = raw_insts;
    let mut i: usize = 0;
    while i < insts.len()
        invariant
            goal == optimize_from(raw_views(insts@), i as int),
            i <= insts@.len(),
        decreases insts@.len() - i,
    {
        let ghost v = raw_views(insts@);
        let fold = i + 1 < insts.len() && insts[i].opcode.1 == OpCode::Add && match &insts[i].operand {
            Some((_, Operand::Immediate(OperandValue::Value(0)))) => true,
            _ => false,
        } && insts[i + 1].label.is_none();
        assert(i + 1 < insts@.len() ==> v[i as int] == insts@[i as int]@ && v[i + 1] == insts@[i + 1]@);
        assert(fold == foldable(v, i as int));
        if fold {
            let next = insts.remove(i + 1);
            let label = match &insts[i].label {
                Some(t) => Some(t.clone()),
                None => None,
            };
            let merged = RawInst { label, opcode: next.opcode, operand: next.operand };
            insts.set(i, merged);
            assert(raw_views(insts@) =~= fold_at(v, i as int));
        }
        i = i + 1;
    }
    Ok((insts, symbol_table))
}

/// Instruction `inst` is `ADD #0`: it adds nothing to the accumulator.
pub open spec fn is_add_zero(inst: RawInstView) -> bool {
    &&& inst.opcode.1 == OpCode::Add
    &&& inst.operand matches Some((_, Operand::Immediate(OperandValueView::Value(0))))
}

/// The opcode and operand of each instruction that is not `ADD #0`, in
/// program order.
pub open spec fn kept_ops(insts: Seq<RawInstView>) -> Seq<((Span, OpCode), Option<(Span, Operand<OperandValueView>)>)>
    decreases insts.len(),
{
    if insts.len() == 0 {
        Seq::empty()
    } else if is_add_zero(insts.last()) {
        kept_ops(insts.drop_last())
    } else {
        kept_ops(insts.drop_last()).push((insts.last().opcode, insts.last().operand))
    }
}

proof fn lemma_kept_ops_add(a: Seq<RawInstView>, b: Seq<RawInstView>)
    ensures
        kept_ops(a + b) == kept_ops(a) + kept_ops(b),
    decreases b.len(),
{
    if b.len() == 0 {
        assert(a + b =~= a);
        assert(kept_ops(a) + kept_ops(b) =~= kept_ops(a));
    } else {
        assert((a + b).drop_last() =~= a + b.drop_last());
        assert((a + b).last() == b.last());
        lemma_kept_ops_add(a, b.drop_last());
        if !is_add_zero(b.last()) {
            assert(kept_ops(a) + kept_ops(b.drop_last()).push((b.last().opcode, b.last().operand))
                =~= (kept_ops(a) + kept_ops(b.drop_last())).push((b.last().opcode, b.last().operand)));
        }
    }
}

proof fn lemma_kept_ops_one(x: RawInstView)
    ensures
        kept_ops(seq![x]) == (if is_add_zero(x) { Seq::empty() } else { seq![(x.opcode, x.operand)] }),
{
    assert(seq![x].drop_last() =~= Seq::<RawInstView>::empty());
    assert(kept_ops(Seq::<RawInstView>::empty()) == Seq::<((Span, OpCode), Option<(Span, Operand<OperandValueView>)>)>::empty());
    assert(Seq::<((Span, OpCode), Option<(Span, Operand<OperandValueView>)>)>::empty().push((x.opcode, x.operand)) =~= seq![(x.opcode, x.operand)]);
}

proof fn lemma_fold_keeps(insts: Seq<RawInstView>, i: int)
    requires
        foldable(insts, i),
        is_add_zero(insts[i]),
    ensures
        kept_ops(fold_at(insts, i)) == kept_ops(insts),
{
    let merged = RawInstView { label: insts[i].label, ..insts[i + 1] };
    let head = insts.take(i);
    let tail = insts.skip(i + 2);
    assert(insts =~= head + seq![insts[i]] + seq![insts[i + 1]] + tail);
    assert(fold_at(insts, i) =~= head + seq![merged] + tail);
    lemma_kept_ops_one(insts[i]);
    lemma_kept_ops_one(insts[i + 1]);
    lemma_kept_ops_one(merged);
    lemma_kept_ops_add(head + seq![insts[i]] + seq![insts[i + 1]], tail);
    lemma_kept_ops_add(head + seq![insts[i]], seq![insts[i + 1]]);
    lemma_kept_ops_add(head, seq![insts[i]]);
    lemma_kept_ops_add(head + seq![merged], tail);
    lemma_kept_ops_add(head, seq![merged]);
    assert(kept_ops(head) + Seq::empty() =~= kept_ops(head));
}

proof fn lemma_optimize_from_keeps(insts: Seq<RawInstView>, i: int)
    ensures
        kept_ops(optimize_from(insts, i)) == kept_ops(insts),
    decreases insts.len() - i,
{
    if 0 <= i < insts.len() {
        if foldable(insts, i) {
            lemma_fold_keeps(insts, i);
            lemma_optimize_from_keeps(fold_at(insts, i), i + 1);
        } else {
            lemma_optimize_from_keeps(insts, i + 1);
        }
    }
}

/// Only `ADD #0` leaves a program: every other instruction stays, with its
/// opcode and operand, in the same order.
pub proof fn law_optimize_keeps_other_instructions(insts: Seq<RawInstView>)
    ensures
        kept_ops(optimized(insts)) == kept_ops(insts),
{
    lemma_optimize_from_keeps(insts, 0);
}

/// A program with no `ADD #0` to fold is left as it is.
pub proof fn law_optimize_without_folds(insts: Seq<RawInstView>, i: int)
    requires
        forall|k: int| 0 <= k < insts.len() ==> !foldable(insts, k),
    ensures
        optimize_from(insts, i) == insts,
    decreases insts.len() - i,
{
    if 0 <= i < insts.len() {
        law_optimize_without_folds(insts, i + 1);
    }
}

} // verus!
