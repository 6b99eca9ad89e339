use vstd::prelude::*;
use crate::bytecode::{FunctionV, InstructionV};
use crate::machine::{Effect, VmV, apply};
use crate::trace::TraceEventV;
use crate::value::{ValueV, truthy};

verus! {

/// The registers after an instruction that completed and the position it continues at.
pub open spec fn continues(eff: Effect, registers: Seq<ValueV>, next_pc: int) -> bool {
    eff matches Effect::Next { registers: r, next_pc: p, .. } && r == registers && p == next_pc
}

/// What an instruction of `f` at `pc` does to the registers `regs`, when its effect is
/// `eff` (see [`instructions_do_what_they_name`]).
pub open spec fn does_what_it_names(s: VmV, f: FunctionV, regs: Seq<ValueV>, pc: usize, eff: Effect) -> bool {
    let next = pc + 1;
    match f.code[pc as int] {
        InstructionV::Const { dst, constant } => continues(
            eff,
            regs.update(dst as int, s.module.constants[constant as int]),
            next,
        ),
        InstructionV::Move { dst, src } => continues(eff, regs.update(dst as int, regs[src as int]), next),
        InstructionV::Add { dst, lhs, rhs } => regs[lhs as int] matches ValueV::I64(x) ==> (regs[rhs as int] matches ValueV::I64(y)
            ==> continues(eff, regs.update(dst as int, ValueV::I64(x.wrapping_add(y))), next)),
        InstructionV::Sub { dst, lhs, rhs } => regs[lhs as int] matches ValueV::I64(x) ==> (regs[rhs as int] matches ValueV::I64(y)
            ==> continues(eff, regs.update(dst as int, ValueV::I64(x.wrapping_sub(y))), next)),
        InstructionV::Mul { dst, lhs, rhs } => regs[lhs as int] matches ValueV::I64(x) ==> (regs[rhs as int] matches ValueV::I64(y)
            ==> continues(eff, regs.update(dst as int, ValueV::I64(x.wrapping_mul(y))), next)),
        InstructionV::Div { dst, lhs, rhs } => regs[lhs as int] matches ValueV::I64(x) ==> (regs[rhs as int] matches ValueV::I64(y)
            ==> (y != 0 && x.checked_div(y) is Some ==> continues(eff, regs.update(dst as int, ValueV::I64(x.checked_div(y)->Some_0)), next))),
        InstructionV::Eq { dst, lhs, rhs } => regs[lhs as int] matches ValueV::I64(x) ==> (regs[rhs as int] matches ValueV::I64(y)
            ==> continues(eff, regs.update(dst as int, ValueV::Bool(x == y)), next)),
        InstructionV::Lt { dst, lhs, rhs } => regs[lhs as int] matches ValueV::I64(x) ==> (regs[rhs as int] matches ValueV::I64(y)
            ==> continues(eff, regs.update(dst as int, ValueV::Bool(x < y)), next)),
        InstructionV::Jump { target } => continues(eff, regs, target as int),
        InstructionV::JumpIf { cond, target } => continues(
            eff,
            regs,
            if truthy(regs[cond as int]) {
                target as int
            } else {
                next
            },
        ),
        InstructionV::Ret { src } => (eff matches Effect::Return { value, .. } && value == regs[src as int]),
        InstructionV::ArrayNew { dst, items } => (s.limits.max_array_items is None || items.len()
            <= s.limits.max_array_items->Some_0) ==> continues(
            eff,
            regs.update(dst as int, ValueV::Array(Seq::new(items.len(), |k: int| regs[items[k] as int]))),
            next,
        ),
        InstructionV::ArrayGet { dst, array, index } => regs[array as int] matches ValueV::Array(items) ==> (
        regs[index as int] matches ValueV::I64(i) ==> (0 <= i < items.len() <= usize::MAX ==> continues(
            eff,
            regs.update(dst as int, items[i as int]),
            next,
        ))),
        InstructionV::ArraySet { array, index, value } => regs[array as int] matches ValueV::Array(items) ==> (
        regs[index as int] matches ValueV::I64(i) ==> (0 <= i < items.len() <= usize::MAX ==> (eff matches Effect::Next {
            registers,
            next_pc,
            ..
        } && stored(registers, regs, next_pc, next, array, value, items, i)))),
        _ => true,
    }

}

/// After `array_set`: the frame continues at `next`, every register but the array register
/// keeps its value, and the array has the same length, the value register's content at index
/// `i` and its other elements unchanged.
pub open spec fn stored(
    registers: Seq<ValueV>,
    regs: Seq<ValueV>,
    next_pc: usize,
    next: int,
    array: usize,
    value: usize,
    items: Seq<ValueV>,
    i: i64,
) -> bool {
    &&& next_pc == next
    &&& registers.len() == regs.len()
    &&& forall|r: int| 0 <= r < regs.len() && r != array ==> #[trigger] registers[r] == regs[r]
    &&& registers[array as int] matches ValueV::Array(after) && after.len() == items.len() && after[i as int]
        == regs[value as int] && forall|k: int| 0 <= k < items.len() && k != i ==> #[trigger] after[k] == items[k]
}

/// Each instruction does what its name says, on the registers of its frame:
/// - `const` loads the module's constant and `move` copies a register;
/// - on two integers, `add`, `sub` and `mul` compute the wrapped sum, difference and product
///   of the left and the right operand, `div` their quotient, `eq` and `lt` whether the left
///   equals or is less than the right;
/// - `jump` goes to its target and `jump_if` goes there exactly when its condition holds;
/// - `ret` returns its register;
/// - `array_new` builds the array of its item registers (within the array limit);
/// - `array_get` reads the element at the index, and `array_set` writes the value register
///   into the element at the index, leaving the other elements and every other register
///   alone, when the index register holds a non-negative integer inside the array.
/// Every instruction but a jump continues at the next one.
#[verifier::rlimit(60)]
pub proof fn instructions_do_what_they_name(s: VmV, depth: nat, f: FunctionV, regs: Seq<ValueV>, pc: usize, e: TraceEventV)
    requires
        pc < f.code.len() <= usize::MAX,
        crate::checks::instr_wf(s.module, f, f.code[pc as int]),
        regs.len() == f.registers,
    ensures
        does_what_it_names(s, f, regs, pc, apply(s, depth, f, regs, pc, e).0),
{
    reveal(apply);
    let eff = apply(s, depth, f, regs, pc, e).0;
    match f.code[pc as int] {
        InstructionV::Const { .. } => {
            assert(does_what_it_names(s, f, regs, pc, eff));
        },
        InstructionV::Move { .. } => {
            assert(does_what_it_names(s, f, regs, pc, eff));
        },
        InstructionV::Add { .. } => {
            assert(does_what_it_names(s, f, regs, pc, eff));
        },
        InstructionV::Sub { .. } => {
            assert(does_what_it_names(s, f, regs, pc, eff));
        },
        InstructionV::Mul { .. } => {
            assert(does_what_it_names(s, f, regs, pc, eff));
        },
        InstructionV::Div { .. } => {
            assert(does_what_it_names(s, f, regs, pc, eff));
        },
        InstructionV::Eq { .. } => {
            assert(does_what_it_names(s, f, regs, pc, eff));
        },
        InstructionV::Lt { .. } => {
            assert(does_what_it_names(s, f, regs, pc, eff));
        },
        InstructionV::Jump { .. } => {
            assert(does_what_it_names(s, f, regs, pc, eff));
        },
        InstructionV::JumpIf { .. } => {
            assert(does_what_it_names(s, f, regs, pc, eff));
        },
        InstructionV::Ret { .. } => {
            assert(does_what_it_names(s, f, regs, pc, eff));
        },
        InstructionV::Call { .. } => {
            assert(does_what_it_names(s, f, regs, pc, eff));
        },
        InstructionV::CapCall { .. } => {
            assert(does_what_it_names(s, f, regs, pc, eff));
        },
        InstructionV::ArrayGet { .. } => {
            assert(does_what_it_names(s, f, regs, pc, eff));
        },
        InstructionV::ArrayNew { dst, items } => {
            assert(crate::machine::read_regs(regs, items) =~= Seq::new(items.len(), |k: int| regs[items[k] as int]));
            assert(does_what_it_names(s, f, regs, pc, eff));
        },
        InstructionV::ArraySet { array, index, value } => {
            if let ValueV::I64(i) = regs[index as int] {
                if let ValueV::Array(items) = regs[array as int] {
                    if 0 <= i < items.len() <= usize::MAX {
                        let r = regs.update(array as int, ValueV::Array(items.update(i as int, regs[value as int])));
                        assert(forall|q: int| 0 <= q < regs.len() && q != array ==> #[trigger] r[q] == regs[q]);
                    }
                }
            }
            assert(does_what_it_names(s, f, regs, pc, eff));
        },
    }
}

} // verus!
