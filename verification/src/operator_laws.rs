use vstd::prelude::*;
use crate::assembler::{first_equal, intern};
use crate::bytecode::{FunctionV, InstructionV};
use crate::lang::{BinaryOp, CompV, compile_op};
use crate::machine::{Effect, VmV, apply, new_event};
use crate::value::{ValueV, truthy, value_eq};

verus! {

/// The registers after running `f` from `pc` until it passes the end of its code, following
/// every jump, in at most `fuel` instructions; `None` when an instruction does not simply
/// continue, or the fuel runs out.
pub open spec fn run_code(s: VmV, f: FunctionV, pc: int, regs: Seq<ValueV>, fuel: nat) -> Option<Seq<ValueV>>
    decreases fuel,
{
    if pc == f.code.len() {
        Some(regs)
    } else if fuel == 0 || pc < 0 || pc > f.code.len() {
        None
    } else {
        match apply(s, 0, f, regs, pc as usize, new_event(f, pc as usize)).0 {
            Effect::Next { registers, next_pc, .. } => run_code(s, f, next_pc as int, registers, (fuel - 1) as nat),
            _ => None,
        }
    }
}

/// What a binary operator of the language means on two integers: wrapped arithmetic, the
/// quotient, the comparisons, and `and` / `or` as the language defines them (`a and b` is
/// `false` unless `a` holds, then `b`; `a or b` is `true` when `a` holds, else `b`).
pub open spec fn int_meaning(op: BinaryOp, x: i64, y: i64) -> ValueV {
    match op {
        BinaryOp::Add => ValueV::I64(x.wrapping_add(y)),
        BinaryOp::Sub => ValueV::I64(x.wrapping_sub(y)),
        BinaryOp::Mul => ValueV::I64(x.wrapping_mul(y)),
        BinaryOp::Div => ValueV::I64(x.checked_div(y)->Some_0),
        BinaryOp::Eq => ValueV::Bool(x == y),
        BinaryOp::Neq => ValueV::Bool(x != y),
        BinaryOp::Lt => ValueV::Bool(x < y),
        BinaryOp::Gt => ValueV::Bool(x > y),
        BinaryOp::Lte => ValueV::Bool(x <= y),
        BinaryOp::Gte => ValueV::Bool(x >= y),
        BinaryOp::And => if truthy(ValueV::I64(x)) {
            ValueV::I64(y)
        } else {
            ValueV::Bool(false)
        },
        BinaryOp::Or => if truthy(ValueV::I64(x)) {
            ValueV::Bool(true)
        } else {
            ValueV::I64(y)
        },
    }
}

/// The code the compiler emits for a binary operator means what the operator says: run on
/// the machine from where it starts, with integers `x` and `y` in the operand registers `a`
/// and `b`, it leaves `int_meaning(op, x, y)` in the register the compiler names as the
/// result (for `x > y`, `true` exactly when `y < x`).
pub proof fn compiled_operators_mean_what_they_say(
    c: CompV,
    op: BinaryOp,
    dst: usize,
    a: usize,
    b: usize,
    n: usize,
    s: VmV,
    f: FunctionV,
    regs: Seq<ValueV>,
    x: i64,
    y: i64,
)
    requires
        compile_op(c, op, dst, a, b, n) is Ok,
        a < c.next,
        b < c.next,
        dst < c.next,
        c.consts.len() < usize::MAX,
        f.code == compile_op(c, op, dst, a, b, n)->Ok_0.0.code,
        f.code.len() <= usize::MAX,
        s.module.constants == compile_op(c, op, dst, a, b, n)->Ok_0.0.consts,
        regs.len() == f.registers,
        regs.len() >= compile_op(c, op, dst, a, b, n)->Ok_0.0.next,
        regs[a as int] == ValueV::I64(x),
        regs[b as int] == ValueV::I64(y),
        op == BinaryOp::Div ==> y != 0 && x.checked_div(y) is Some,
    ensures
        run_code(s, f, c.code.len() as int, regs, 4) matches Some(out) && out[compile_op(
            c,
            op,
            dst,
            a,
            b,
            n,
        )->Ok_0.1 as int] == int_meaning(op, x, y),
{
    reveal(apply);
    let pc0 = c.code.len() as int;
    match op {
        BinaryOp::Neq | BinaryOp::Lte | BinaryOp::Gte => lemma_negated(c, op, dst, a, b, n, s, f, regs, x, y),
        BinaryOp::And => lemma_and(c, dst, a, b, n, s, f, regs, x, y),
        BinaryOp::Or => lemma_or(c, dst, a, b, n, s, f, regs, x, y),
        _ => {
            assert(f.code[pc0] == compile_op(c, op, dst, a, b, n)->Ok_0.0.code.last());
            let r1 = run_code(s, f, pc0 + 1, regs.update(dst as int, int_meaning(op, x, y)), 3);
            assert(r1 == Some(regs.update(dst as int, int_meaning(op, x, y))));
        },
    }
}

/// The first constant equal to `v` is equal to it.
proof fn lemma_first_equal(cs: Seq<ValueV>, v: ValueV)
    ensures
        first_equal(cs, v) matches Some(i) ==> 0 <= i < cs.len() && value_eq(cs[i], v),
    decreases cs.len(),
{
    if cs.len() > 0 {
        lemma_first_equal(cs.drop_last(), v);
        if let Some(i) = first_equal(cs.drop_last(), v) {
            assert(cs.drop_last()[i] == cs[i]);
        }
    }
}

/// Interning a boolean gives an index that holds it.
proof fn lemma_intern_bool(cs: Seq<ValueV>, v: bool)
    requires
        cs.len() < usize::MAX,
    ensures
        intern(cs, ValueV::Bool(v)).1 < intern(cs, ValueV::Bool(v)).0.len(),
        intern(cs, ValueV::Bool(v)).0[intern(cs, ValueV::Bool(v)).1 as int] == ValueV::Bool(v),
        intern(cs, ValueV::Bool(v)).0.len() <= cs.len() + 1,
{
    lemma_first_equal(cs, ValueV::Bool(v));
}

#[verifier::rlimit(60)]
proof fn lemma_negated(
    c: CompV,
    op: BinaryOp,
    dst: usize,
    a: usize,
    b: usize,
    n: usize,
    s: VmV,
    f: FunctionV,
    regs: Seq<ValueV>,
    x: i64,
    y: i64,
)
    requires
        op == BinaryOp::Neq || op == BinaryOp::Lte || op == BinaryOp::Gte,
        compile_op(c, op, dst, a, b, n) is Ok,
        a < c.next,
        b < c.next,
        dst < c.next,
        c.consts.len() < usize::MAX,
        f.code == compile_op(c, op, dst, a, b, n)->Ok_0.0.code,
        f.code.len() <= usize::MAX,
        s.module.constants == compile_op(c, op, dst, a, b, n)->Ok_0.0.consts,
        regs.len() == f.registers,
        regs.len() >= compile_op(c, op, dst, a, b, n)->Ok_0.0.next,
        regs[a as int] == ValueV::I64(x),
        regs[b as int] == ValueV::I64(y),
    ensures
        run_code(s, f, c.code.len() as int, regs, 4) matches Some(out) && out[compile_op(
            c,
            op,
            dst,
            a,
            b,
            n,
        )->Ok_0.1 as int] == int_meaning(op, x, y),
{
    reveal(apply);
    let pc0 = c.code.len() as int;
    lemma_intern_bool(c.consts, false);
    let (cs, k) = intern(c.consts, ValueV::Bool(false));
    let fr = c.next;
    let d2 = (c.next + 1) as usize;
    let first = match op {
        BinaryOp::Neq => ValueV::Bool(x == y),
        BinaryOp::Lte => ValueV::Bool(y < x),
        _ => ValueV::Bool(x < y),
    };
    let test_ins = match op {
        BinaryOp::Neq => InstructionV::Eq { dst, lhs: a, rhs: b },
        BinaryOp::Lte => InstructionV::Lt { dst, lhs: b, rhs: a },
        _ => InstructionV::Lt { dst, lhs: a, rhs: b },
    };
    assert(f.code =~= c.code.push(test_ins).push(InstructionV::Const { dst: fr, constant: k }).push(
        InstructionV::Eq { dst: d2, lhs: dst, rhs: fr },
    ));
    assert(compile_op(c, op, dst, a, b, n)->Ok_0.1 == d2);
    let r1 = regs.update(dst as int, first);
    let r2 = r1.update(fr as int, ValueV::Bool(false));
    let fv = match first {
        ValueV::Bool(t) => t,
        _ => false,
    };
    let r3 = r2.update(d2 as int, ValueV::Bool(fv == false));
    assert(f.code[pc0] == test_ins);
    assert(f.code[pc0 + 1] == InstructionV::Const { dst: fr, constant: k });
    assert(f.code[pc0 + 2] == InstructionV::Eq { dst: d2, lhs: dst, rhs: fr });
    assert(run_code(s, f, pc0 + 3, r3, 1) == Some(r3));
    assert(run_code(s, f, pc0 + 2, r2, 2) == Some(r3));
    assert(run_code(s, f, pc0 + 1, r1, 3) == Some(r3));
    assert(run_code(s, f, pc0, regs, 4) == Some(r3));
}

#[verifier::rlimit(60)]
proof fn lemma_and(
    c: CompV,
    dst: usize,
    a: usize,
    b: usize,
    n: usize,
    s: VmV,
    f: FunctionV,
    regs: Seq<ValueV>,
    x: i64,
    y: i64,
)
    requires
        compile_op(c, BinaryOp::And, dst, a, b, n) is Ok,
        a < c.next,
        b < c.next,
        c.consts.len() < usize::MAX,
        f.code == compile_op(c, BinaryOp::And, dst, a, b, n)->Ok_0.0.code,
        f.code.len() <= usize::MAX,
        s.module.constants == compile_op(c, BinaryOp::And, dst, a, b, n)->Ok_0.0.consts,
        regs.len() == f.registers,
        regs.len() >= compile_op(c, BinaryOp::And, dst, a, b, n)->Ok_0.0.next,
        regs[a as int] == ValueV::I64(x),
        regs[b as int] == ValueV::I64(y),
    ensures
        run_code(s, f, c.code.len() as int, regs, 4) matches Some(out) && out[compile_op(
            c,
            BinaryOp::And,
            dst,
            a,
            b,
            n,
        )->Ok_0.1 as int] == int_meaning(BinaryOp::And, x, y),
{
    reveal(apply);
    let pc0 = c.code.len() as int;
    lemma_intern_bool(c.consts, false);
    let (cs, k) = intern(c.consts, ValueV::Bool(false));
    let d = c.next;
    assert(f.code =~= c.code.push(InstructionV::Const { dst: d, constant: k }).push(
        InstructionV::JumpIf { cond: a, target: (pc0 + 3) as usize },
    ).push(InstructionV::Jump { target: (pc0 + 4) as usize }).push(InstructionV::Move { dst: d, src: b }));
    let r1 = regs.update(d as int, ValueV::Bool(false));
    let r2 = r1.update(d as int, ValueV::I64(y));
    assert(f.code[pc0] == InstructionV::Const { dst: d, constant: k });
    assert(f.code[pc0 + 1] == InstructionV::JumpIf { cond: a, target: (pc0 + 3) as usize });
    assert(f.code[pc0 + 2] == InstructionV::Jump { target: (pc0 + 4) as usize });
    assert(f.code[pc0 + 3] == InstructionV::Move { dst: d, src: b });
    assert(r1[a as int] == ValueV::I64(x));
    assert(r1[b as int] == ValueV::I64(y));
    if truthy(ValueV::I64(x)) {
        assert(run_code(s, f, pc0 + 4, r2, 1) == Some(r2));
        assert(run_code(s, f, pc0 + 3, r1, 2) == Some(r2));
        assert(run_code(s, f, pc0 + 1, r1, 3) == Some(r2));
    } else {
        assert(run_code(s, f, pc0 + 4, r1, 1) == Some(r1));
        assert(run_code(s, f, pc0 + 2, r1, 2) == Some(r1));
        assert(run_code(s, f, pc0 + 1, r1, 3) == Some(r1));
    }
}

#[verifier::rlimit(60)]
proof fn lemma_or(
    c: CompV,
    dst: usize,
    a: usize,
    b: usize,
    n: usize,
    s: VmV,
    f: FunctionV,
    regs: Seq<ValueV>,
    x: i64,
    y: i64,
)
    requires
        compile_op(c, BinaryOp::Or, dst, a, b, n) is Ok,
        a < c.next,
        b < c.next,
        c.consts.len() < usize::MAX,
        f.code == compile_op(c, BinaryOp::Or, dst, a, b, n)->Ok_0.0.code,
        f.code.len() <= usize::MAX,
        s.module.constants == compile_op(c, BinaryOp::Or, dst, a, b, n)->Ok_0.0.consts,
        regs.len() == f.registers,
        regs.len() >= compile_op(c, BinaryOp::Or, dst, a, b, n)->Ok_0.0.next,
        regs[a as int] == ValueV::I64(x),
        regs[b as int] == ValueV::I64(y),
    ensures
        run_code(s, f, c.code.len() as int, regs, 4) matches Some(out) && out[compile_op(
            c,
            BinaryOp::Or,
            dst,
            a,
            b,
            n,
        )->Ok_0.1 as int] == int_meaning(BinaryOp::Or, x, y),
{
    reveal(apply);
    let pc0 = c.code.len() as int;
    lemma_intern_bool(c.consts, true);
    let (cs, k) = intern(c.consts, ValueV::Bool(true));
    let d = c.next;
    assert(f.code =~= c.code.push(InstructionV::Const { dst: d, constant: k }).push(
        InstructionV::JumpIf { cond: a, target: (pc0 + 3) as usize },
    ).push(InstructionV::Move { dst: d, src: b }));
    let r1 = regs.update(d as int, ValueV::Bool(true));
    let r2 = r1.update(d as int, ValueV::I64(y));
    assert(f.code[pc0] == InstructionV::Const { dst: d, constant: k });
    assert(f.code[pc0 + 1] == InstructionV::JumpIf { cond: a, target: (pc0 + 3) as usize });
    assert(f.code[pc0 + 2] == InstructionV::Move { dst: d, src: b });
    assert(r1[a as int] == ValueV::I64(x));
    assert(r1[b as int] == ValueV::I64(y));
    if truthy(ValueV::I64(x)) {
        assert(run_code(s, f, pc0 + 3, r1, 2) == Some(r1));
        assert(run_code(s, f, pc0 + 1, r1, 3) == Some(r1));
    } else {
        assert(run_code(s, f, pc0 + 3, r2, 1) == Some(r2));
        assert(run_code(s, f, pc0 + 2, r1, 2) == Some(r2));
        assert(run_code(s, f, pc0 + 1, r1, 3) == Some(r2));
    }
}

} // verus!
