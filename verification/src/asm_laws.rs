use vstd::prelude::*;
use crate::assembler::{AsmErrorV, AsmOut, PendingV, op_of, reg_of, regs_of};
use crate::bytecode::{InstructionV, opcode_name};
use crate::value::ValueV;

verus! {

/// The register operands of an instruction, in the order its assembly text names them.
pub open spec fn named_registers(i: InstructionV) -> Seq<usize> {
    match i {
        InstructionV::Const { dst, .. } => seq![dst],
        InstructionV::Move { dst, src } => seq![dst, src],
        InstructionV::Add { dst, lhs, rhs } => seq![dst, lhs, rhs],
        InstructionV::Sub { dst, lhs, rhs } => seq![dst, lhs, rhs],
        InstructionV::Mul { dst, lhs, rhs } => seq![dst, lhs, rhs],
        InstructionV::Div { dst, lhs, rhs } => seq![dst, lhs, rhs],
        InstructionV::Eq { dst, lhs, rhs } => seq![dst, lhs, rhs],
        InstructionV::Lt { dst, lhs, rhs } => seq![dst, lhs, rhs],
        InstructionV::Jump { .. } => Seq::empty(),
        InstructionV::JumpIf { cond, .. } => seq![cond],
        InstructionV::Call { dst, args, .. } => seq![dst] + args,
        InstructionV::CapCall { dst, args, .. } => seq![dst] + args,
        InstructionV::Ret { src } => seq![src],
        InstructionV::ArrayNew { dst, items } => seq![dst] + items,
        InstructionV::ArrayGet { dst, array, index } => seq![dst, array, index],
        InstructionV::ArraySet { array, index, value } => seq![array, index, value],
    }
}

/// The operands of a line with opcode `op` that name registers: every operand, but for
/// `const` and `jump_if` only the first, for `jump` none, and for `call` and `cap_call` all
/// but the callee's name.
pub open spec fn register_tokens(op: Seq<char>, args: Seq<Seq<char>>) -> Seq<Seq<char>> {
    if op == "const"@ || op == "jump_if"@ {
        args.take(1)
    } else if op == "jump"@ {
        Seq::empty()
    } else if op == "call"@ || op == "cap_call"@ {
        args.take(1) + args.skip(2)
    } else {
        args
    }
}

/// The registers that tokens name, one by one.
proof fn lemma_regs_of(n: usize, toks: Seq<Seq<char>>)
    ensures
        regs_of(n, toks) matches Ok(rs) ==> rs.len() == toks.len() && forall|k: int|
            0 <= k < toks.len() ==> #[trigger] reg_of(n, toks[k]) == Ok::<usize, AsmErrorV>(rs[k]),
        (forall|k: int| 0 <= k < toks.len() ==> (#[trigger] reg_of(n, toks[k])) is Ok) ==> regs_of(n, toks)
            == Ok::<Seq<usize>, AsmErrorV>(Seq::new(toks.len(), |k: int| reg_of(n, toks[k])->Ok_0)),
    decreases toks.len(),
{
    if toks.len() > 0 {
        let pre = toks.drop_last();
        lemma_regs_of(n, pre);
        assert forall|k: int| 0 <= k < pre.len() implies #[trigger] pre[k] == toks[k] by {}
        if let Ok(rs) = regs_of(n, toks) {
            let rp = regs_of(n, pre)->Ok_0;
            assert forall|k: int| 0 <= k < toks.len() implies #[trigger] reg_of(n, toks[k]) == Ok::<usize, AsmErrorV>(rs[k]) by {
                if k < pre.len() {
                    assert(pre[k] == toks[k]);
                    assert(reg_of(n, pre[k]) == Ok::<usize, AsmErrorV>(rp[k]));
                }
            }
        }
        if forall|k: int| 0 <= k < toks.len() ==> (#[trigger] reg_of(n, toks[k])) is Ok {
            assert forall|k: int| 0 <= k < pre.len() implies (#[trigger] reg_of(n, pre[k])) is Ok by {
                assert(pre[k] == toks[k]);
            }
            assert(reg_of(n, toks[toks.len() - 1]) is Ok);
            assert(toks.last() == toks[toks.len() - 1]);
            assert(Seq::new(pre.len(), |k: int| reg_of(n, pre[k])->Ok_0).push(reg_of(n, toks.last())->Ok_0) =~= Seq::new(
                toks.len(),
                |k: int| reg_of(n, toks[k])->Ok_0,
            ));
        }
    } else {
        assert(Seq::new(toks.len(), |k: int| reg_of(n, toks[k])->Ok_0) =~= Seq::<usize>::empty());
    }
}

/// The spelling of each opcode: its length and the letters that tell it from the others.
proof fn lemma_opcode_spellings()
    ensures
        "const"@.len() == 5 && "const"@[0] == 'c' && "const"@[1] == 'o',
        "move"@.len() == 4 && "move"@[0] == 'm' && "move"@[1] == 'o',
        "add"@.len() == 3 && "add"@[0] == 'a' && "add"@[1] == 'd',
        "sub"@.len() == 3 && "sub"@[0] == 's' && "sub"@[1] == 'u',
        "mul"@.len() == 3 && "mul"@[0] == 'm' && "mul"@[1] == 'u',
        "div"@.len() == 3 && "div"@[0] == 'd' && "div"@[1] == 'i',
        "eq"@.len() == 2 && "eq"@[0] == 'e' && "eq"@[1] == 'q',
        "lt"@.len() == 2 && "lt"@[0] == 'l' && "lt"@[1] == 't',
        "jump"@.len() == 4 && "jump"@[0] == 'j' && "jump"@[1] == 'u',
        "jump_if"@.len() == 7 && "jump_if"@[0] == 'j' && "jump_if"@[1] == 'u' && "jump_if"@[6] == 'f',
        "call"@.len() == 4 && "call"@[0] == 'c' && "call"@[1] == 'a',
        "cap_call"@.len() == 8 && "cap_call"@[0] == 'c' && "cap_call"@[1] == 'a' && "cap_call"@[6] == 'l',
        "ret"@.len() == 3 && "ret"@[0] == 'r' && "ret"@[1] == 'e',
        "array_new"@.len() == 9 && "array_new"@[0] == 'a' && "array_new"@[1] == 'r' && "array_new"@[6] == 'n',
        "array_get"@.len() == 9 && "array_get"@[0] == 'a' && "array_get"@[1] == 'r' && "array_get"@[6] == 'g',
        "array_set"@.len() == 9 && "array_set"@[0] == 'a' && "array_set"@[1] == 'r' && "array_set"@[6] == 's',
{
    reveal_strlit("const");
    reveal_strlit("move");
    reveal_strlit("add");
    reveal_strlit("sub");
    reveal_strlit("mul");
    reveal_strlit("div");
    reveal_strlit("eq");
    reveal_strlit("lt");
    reveal_strlit("jump");
    reveal_strlit("jump_if");
    reveal_strlit("call");
    reveal_strlit("cap_call");
    reveal_strlit("ret");
    reveal_strlit("array_new");
    reveal_strlit("array_get");
    reveal_strlit("array_set");
    assert("const"@.len() == 5 && "const"@[0] == 'c' && "const"@[1] == 'o');
    assert("move"@.len() == 4 && "move"@[0] == 'm' && "move"@[1] == 'o');
    assert("add"@.len() == 3 && "add"@[0] == 'a' && "add"@[1] == 'd');
    assert("sub"@.len() == 3 && "sub"@[0] == 's' && "sub"@[1] == 'u');
    assert("mul"@.len() == 3 && "mul"@[0] == 'm' && "mul"@[1] == 'u');
    assert("div"@.len() == 3 && "div"@[0] == 'd' && "div"@[1] == 'i');
    assert("eq"@.len() == 2 && "eq"@[0] == 'e' && "eq"@[1] == 'q');
    assert("lt"@.len() == 2 && "lt"@[0] == 'l' && "lt"@[1] == 't');
    assert("jump"@.len() == 4 && "jump"@[0] == 'j' && "jump"@[1] == 'u');
    assert("jump_if"@.len() == 7 && "jump_if"@[0] == 'j' && "jump_if"@[1] == 'u' && "jump_if"@[6] == 'f');
    assert("call"@.len() == 4 && "call"@[0] == 'c' && "call"@[1] == 'a');
    assert("cap_call"@.len() == 8 && "cap_call"@[0] == 'c' && "cap_call"@[1] == 'a' && "cap_call"@[6] == 'l');
    assert("ret"@.len() == 3 && "ret"@[0] == 'r' && "ret"@[1] == 'e');
    assert("array_new"@.len() == 9 && "array_new"@[0] == 'a' && "array_new"@[1] == 'r' && "array_new"@[6] == 'n');
    assert("array_get"@.len() == 9 && "array_get"@[0] == 'a' && "array_get"@[1] == 'r' && "array_get"@[6] == 'g');
    assert("array_set"@.len() == 9 && "array_set"@[0] == 'a' && "array_set"@[1] == 'r' && "array_set"@[6] == 's');
}

/// An assembled instruction follows its text: the opcode of the instruction is the opcode
/// of the line, its register operands are the registers that the line names, in the order
/// it names them (`sub r2, r0, r1` subtracts `r1` from `r0` into `r2`), and a call names the
/// function or capability of its second operand.
#[verifier::rlimit(80)]
pub proof fn assembled_instructions_follow_their_text(
    n: usize,
    op: Seq<char>,
    args: Seq<Seq<char>>,
    cs: Seq<ValueV>,
    fl: Seq<(Seq<char>, Option<u64>)>,
)
    ensures
        op_of(n, op, args, cs, fl) matches AsmOut::Done((PendingV::Ready(i), _)) ==> {
            &&& opcode_name(i) == op
            &&& regs_of(n, register_tokens(op, args)) == Ok::<Seq<usize>, AsmErrorV>(named_registers(i))
            &&& i matches InstructionV::Call { function, .. } ==> function == args[1]
            &&& i matches InstructionV::CapCall { capability, .. } ==> capability == args[1]
        },
{
    lemma_opcode_spellings();
    let toks = register_tokens(op, args);
    lemma_regs_of(n, toks);
    if args.len() >= 1 {
        lemma_regs_of(n, args.subrange(1, args.len() as int));
    }
    if args.len() >= 2 {
        lemma_regs_of(n, args.subrange(2, args.len() as int));
    }
    if let AsmOut::Done((PendingV::Ready(i), _)) = op_of(n, op, args, cs, fl) {
        assert forall|k: int| 0 <= k < toks.len() implies (#[trigger] reg_of(n, toks[k])) is Ok by {
            if op == "call"@ || op == "cap_call"@ {
                if k >= 1 {
                    assert(toks[k] == args.subrange(2, args.len() as int)[k - 1]);
                }
            } else if op == "array_new"@ {
                if k >= 1 {
                    assert(toks[k] == args.subrange(1, args.len() as int)[k - 1]);
                }
            }
        }
        assert(regs_of(n, toks) == Ok::<Seq<usize>, AsmErrorV>(Seq::new(toks.len(), |k: int| reg_of(n, toks[k])->Ok_0)));
        assert(Seq::new(toks.len(), |k: int| reg_of(n, toks[k])->Ok_0) =~= named_registers(i)) by {
            if op == "call"@ || op == "cap_call"@ {
                assert forall|k: int| 1 <= k < toks.len() implies toks[k] == args.subrange(2, args.len() as int)[k - 1] by {}
            } else if op == "array_new"@ {
                assert forall|k: int| 1 <= k < toks.len() implies toks[k] == args.subrange(1, args.len() as int)[k - 1] by {}
            }
        }
    }
}

} // verus!
