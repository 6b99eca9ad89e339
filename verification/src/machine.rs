use vstd::prelude::*;
use crate::bytecode::{FunctionV, InstructionV, ModuleV, find_export, find_function, opcode_name};
use crate::checks::{module_wf, verify_module};
use crate::bytecode::CapabilityDeclV;
use crate::policy::{NegotiationEntryV, entry_for, entry_failure, first_failure, table_from};
use crate::digest::sealed;
use crate::error::{ChronicleErrorV, PolicyErrorKind, PolicyErrorV, error_text};
use crate::policy::{DecisionV, lookup};
use crate::text::decimal;
use crate::trace::{CapabilityTraceDecision, CapabilityTraceV, RegisterChangeV, ReplayErrorV, TraceEventV};
use crate::value::{ValueV, float_bits_is_zero, truthy, value_eq, values_eq};

verus! {

/// Limits that a run of the machine may not exceed; `None` sets no limit.
#[derive(Clone, Copy, Debug)]
pub struct VmLimits {
    pub max_instructions: Option<usize>,
    pub max_call_depth: Option<usize>,
    pub max_registers: Option<usize>,
    pub max_array_items: Option<usize>,
}

pub open spec fn no_limits() -> VmLimits {
    VmLimits { max_instructions: None, max_call_depth: None, max_registers: None, max_array_items: None }
}

/// A numeric operand that the host's floating-point unit is asked to combine.
#[derive(Clone, Copy, Debug, PartialEq, Eq, Structural)]
pub enum Number {
    I64(i64),
    F64(u64),
}

/// The four arithmetic instructions.
#[derive(Clone, Copy, Debug, PartialEq, Eq, Structural)]
pub enum ArithOp {
    Add,
    Sub,
    Mul,
    Div,
}

/// Work the machine hands to its host: floating-point arithmetic and comparison, the
/// built-in capabilities that reach the outside world, and a call of a capability that the
/// host registers itself.
pub enum HostRequestV {
    Arith { op: ArithOp, lhs: Number, rhs: Number },
    Less { lhs: Number, rhs: Number },
    Print { args: Seq<ValueV> },
    Clock,
    Random,
    Call { capability: Seq<char>, args: Seq<ValueV> },
}

/// What the host hands back: the bits of a double, a truth value, completion of a print,
/// a reading of the system clock (seconds for the clock, nanoseconds for randomness), or
/// what a handler of the host returned.
pub enum HostReplyV {
    Float(u64),
    Truth(bool),
    Done,
    Time(Result<u64, Seq<char>>),
    Returned(Result<ValueV, Seq<char>>),
}

/// A call in progress: the function, the next instruction, the registers, and, while a
/// callee runs, the event of the call instruction with the register that receives the
/// callee's result.
pub struct FrameV {
    pub function: usize,
    pub pc: usize,
    pub registers: Seq<ValueV>,
    pub call: Option<(TraceEventV, usize)>,
}

/// An instruction suspended until the host replies.
pub struct WaitingV {
    pub event: TraceEventV,
    pub dst: usize,
    pub request: HostRequestV,
    pub args: Seq<ValueV>,
}

/// The state of the machine.
pub struct VmV {
    pub module: ModuleV,
    pub capabilities: Seq<(Seq<char>, DecisionV)>,
    pub replay: Seq<CapabilityTraceV>,
    pub replay_index: usize,
    pub limits: VmLimits,
    pub count: usize,
    pub live: bool,
    pub frames: Seq<FrameV>,
    pub events: Seq<TraceEventV>,
    pub waiting: Option<WaitingV>,
}

/// What one step of the machine reports.
pub enum StepV {
    Idle,
    Running,
    Host(HostRequestV),
    Finished(Result<ValueV, ChronicleErrorV>),
}

pub open spec fn runtime(s: Seq<char>) -> ChronicleErrorV {
    ChronicleErrorV::Runtime(s)
}

pub open spec fn resource(s: Seq<char>) -> ChronicleErrorV {
    ChronicleErrorV::ResourceLimit(s)
}

pub open spec fn replay_error(s: Seq<char>) -> ChronicleErrorV {
    ChronicleErrorV::Replay(ReplayErrorV { message: s, diff: None })
}

pub open spec fn policy_error(kind: PolicyErrorKind, id: Seq<char>, message: Seq<char>) -> ChronicleErrorV {
    ChronicleErrorV::Policy(PolicyErrorV { kind, capability: id, message })
}

// ---------------------------------------------------------------------------------------
// Events

/// The event of instruction `pc` of `f` before it runs.
pub open spec fn new_event(f: FunctionV, pc: usize) -> TraceEventV {
    TraceEventV {
        function: f.name,
        pc,
        source_line: if pc < f.source_lines.len() {
            f.source_lines[pc as int]
        } else {
            None
        },
        opcode: opcode_name(f.code[pc as int]),
        register_changes: Seq::empty(),
        capability: None,
        error: None,
        checksum: 0,
    }
}

pub open spec fn add_change(e: TraceEventV, register: usize, value: ValueV) -> TraceEventV {
    TraceEventV { register_changes: e.register_changes.push(RegisterChangeV { register, value }), ..e }
}

pub open spec fn with_capability(e: TraceEventV, c: CapabilityTraceV) -> TraceEventV {
    TraceEventV { capability: Some(c), ..e }
}

pub open spec fn failed(e: TraceEventV, err: ChronicleErrorV) -> TraceEventV {
    sealed(TraceEventV { error: Some(error_text(err)), ..e })
}

// ---------------------------------------------------------------------------------------
// Limits

/// The instruction count after one more instruction, or the failure of the budget.
pub open spec fn count_check(limits: VmLimits, count: usize) -> Result<usize, ChronicleErrorV> {
    let max: usize = match limits.max_instructions {
        Some(m) => m,
        None => usize::MAX,
    };
    if count >= max {
        Err(resource("instruction budget exceeded max "@ + decimal(max as nat)))
    } else {
        Ok((count + 1) as usize)
    }
}

/// Whether a call `depth` frames deep may enter `f`.
pub open spec fn enter_check(limits: VmLimits, depth: nat, f: FunctionV) -> Result<(), ChronicleErrorV> {
    if limits.max_call_depth matches Some(max) && depth >= max {
        Err(resource("call depth exceeded max "@ + decimal(limits.max_call_depth->Some_0 as nat)))
    } else if limits.max_registers matches Some(max) && f.registers > max {
        Err(resource(
            "function "@ + f.name + " uses "@ + decimal(f.registers as nat) + " registers, max is "@ + decimal(
                limits.max_registers->Some_0 as nat,
            ),
        ))
    } else {
        Ok(())
    }
}

/// The registers of a new frame of `f`: `nil` everywhere, then the arguments in order.
pub open spec fn entry_registers(f: FunctionV, args: Seq<ValueV>) -> Seq<ValueV> {
    Seq::new(f.registers as nat, |i: int| if i < args.len() { args[i] } else { ValueV::Nil })
}

pub open spec fn new_frame(m: ModuleV, fi: usize, args: Seq<ValueV>) -> FrameV {
    FrameV { function: fi, pc: 0, registers: entry_registers(m.functions[fi as int], args), call: None }
}

// ---------------------------------------------------------------------------------------
// Arithmetic

/// The outcome of an arithmetic or comparison instruction: a value, a question for the
/// host's floating-point unit, or a failure.
pub enum NumOutcome {
    Value(ValueV),
    Ask(Number, Number),
    Fail(ChronicleErrorV),
}

pub open spec fn as_number(v: ValueV) -> Option<Number> {
    match v {
        ValueV::I64(x) => Some(Number::I64(x)),
        ValueV::F64(b) => Some(Number::F64(b)),
        _ => None,
    }
}

pub open spec fn int_arith(op: ArithOp, a: i64, b: i64) -> NumOutcome {
    match op {
        ArithOp::Add => NumOutcome::Value(ValueV::I64(a.wrapping_add(b))),
        ArithOp::Sub => NumOutcome::Value(ValueV::I64(a.wrapping_sub(b))),
        ArithOp::Mul => NumOutcome::Value(ValueV::I64(a.wrapping_mul(b))),
        ArithOp::Div => match a.checked_div(b) {
            Some(q) => NumOutcome::Value(ValueV::I64(q)),
            None => NumOutcome::Fail(runtime("integer overflow"@)),
        },
    }
}

pub open spec fn is_zero_divisor(v: ValueV) -> bool {
    match v {
        ValueV::I64(x) => x == 0,
        ValueV::F64(b) => float_bits_is_zero(b),
        _ => false,
    }
}

pub open spec fn arith(op: ArithOp, lhs: ValueV, rhs: ValueV) -> NumOutcome {
    if op == ArithOp::Div && is_zero_divisor(rhs) {
        NumOutcome::Fail(runtime("division by zero"@))
    } else {
        match (lhs, rhs) {
            (ValueV::I64(a), ValueV::I64(b)) => int_arith(op, a, b),
            _ => match (as_number(lhs), as_number(rhs)) {
                (Some(a), Some(b)) => NumOutcome::Ask(a, b),
                _ => NumOutcome::Fail(runtime("numeric operands required"@)),
            },
        }
    }
}

pub open spec fn less(lhs: ValueV, rhs: ValueV) -> NumOutcome {
    match (lhs, rhs) {
        (ValueV::I64(a), ValueV::I64(b)) => NumOutcome::Value(ValueV::Bool(a < b)),
        _ => match (as_number(lhs), as_number(rhs)) {
            (Some(a), Some(b)) => NumOutcome::Ask(a, b),
            _ => NumOutcome::Fail(runtime("numeric operands required"@)),
        },
    }
}

/// The index an array instruction reads from a register.
pub open spec fn as_index(v: ValueV) -> Option<usize> {
    match v {
        ValueV::I64(i) => if i >= 0 {
            Some(i as usize)
        } else {
            None
        },
        _ => None,
    }
}

pub open spec fn index_error() -> ChronicleErrorV {
    runtime("array index must be a non-negative i64"@)
}

pub open spec fn bounds_error(i: usize) -> ChronicleErrorV {
    runtime("array index "@ + decimal(i as nat) + " out of bounds"@)
}

// ---------------------------------------------------------------------------------------
// Capabilities

/// The host request that carries out a granted capability: a built-in one by its own
/// request, any other by a call of the host's handler.
pub open spec fn capability_request(id: Seq<char>, args: Seq<ValueV>) -> HostRequestV {
    if id == "log.print@1"@ {
        HostRequestV::Print { args }
    } else if id == "clock.now@1"@ {
        HostRequestV::Clock
    } else if id == "random.u64@1"@ {
        HostRequestV::Random
    } else {
        HostRequestV::Call { capability: id, args }
    }
}

pub open spec fn request_capability(r: HostRequestV) -> Option<Seq<char>> {
    match r {
        HostRequestV::Print { .. } => Some("log.print@1"@),
        HostRequestV::Clock => Some("clock.now@1"@),
        HostRequestV::Random => Some("random.u64@1"@),
        HostRequestV::Call { capability, .. } => Some(capability),
        _ => None,
    }
}

/// The mixing constant applied to the clock's nanoseconds for `random.u64@1`.
pub open spec fn random_mix() -> u64 {
    0x9E37_79B9_7F4A_7C15u64
}

/// The value that the host's reply gives the suspended instruction.
pub open spec fn reply_value(req: HostRequestV, reply: HostReplyV) -> Result<ValueV, ChronicleErrorV> {
    match (req, reply) {
        (HostRequestV::Arith { .. }, HostReplyV::Float(b)) => Ok(ValueV::F64(b)),
        (HostRequestV::Less { .. }, HostReplyV::Truth(b)) => Ok(ValueV::Bool(b)),
        (HostRequestV::Print { .. }, HostReplyV::Done) => Ok(ValueV::Nil),
        (HostRequestV::Clock, HostReplyV::Time(Ok(secs))) => Ok(ValueV::I64(secs as i64)),
        (HostRequestV::Random, HostReplyV::Time(Ok(nanos))) => Ok(ValueV::I64((nanos ^ random_mix()) as i64)),
        (HostRequestV::Clock, HostReplyV::Time(Err(m))) => Err(runtime(m)),
        (HostRequestV::Random, HostReplyV::Time(Err(m))) => Err(runtime(m)),
        (HostRequestV::Call { .. }, HostReplyV::Returned(Ok(v))) => Ok(v),
        (HostRequestV::Call { .. }, HostReplyV::Returned(Err(m))) => Err(runtime(m)),
        _ => Err(runtime("host reply does not match the request"@)),
    }
}

// ---------------------------------------------------------------------------------------
// One instruction

/// What running one instruction does to its frame.
pub enum Effect {
    /// The instruction completed; the frame continues at `next_pc` with `registers`.
    Next { event: TraceEventV, registers: Seq<ValueV>, next_pc: usize },
    /// The function returned `value`.
    Return { event: TraceEventV, value: ValueV },
    /// The instruction failed.
    Fail { event: TraceEventV, error: ChronicleErrorV },
    /// The instruction waits for the host; its result goes to register `dst`.
    Wait { event: TraceEventV, dst: usize, request: HostRequestV, args: Seq<ValueV> },
    /// The instruction calls function `callee` with `args`; its result goes to `dst`.
    Enter { event: TraceEventV, dst: usize, callee: usize, args: Seq<ValueV> },
}

pub open spec fn write_reg(e: TraceEventV, regs: Seq<ValueV>, dst: usize, v: ValueV, pc: usize) -> Effect {
    Effect::Next { event: add_change(e, dst, v), registers: regs.update(dst as int, v), next_pc: (pc + 1) as usize }
}

pub open spec fn num_effect(
    e: TraceEventV,
    regs: Seq<ValueV>,
    dst: usize,
    pc: usize,
    out: NumOutcome,
    request: spec_fn(Number, Number) -> HostRequestV,
) -> Effect {
    match out {
        NumOutcome::Value(v) => write_reg(e, regs, dst, v, pc),
        NumOutcome::Ask(a, b) => Effect::Wait { event: e, dst, request: request(a, b), args: Seq::empty() },
        NumOutcome::Fail(err) => Effect::Fail { event: e, error: err },
    }
}

pub open spec fn read_regs(regs: Seq<ValueV>, idx: Seq<usize>) -> Seq<ValueV> {
    idx.map_values(|i: usize| regs[i as int])
}

/// A capability call: the effect and the new position in the recorded calls.
pub open spec fn cap_effect(
    s: VmV,
    e: TraceEventV,
    regs: Seq<ValueV>,
    pc: usize,
    dst: usize,
    id: Seq<char>,
    args: Seq<ValueV>,
) -> (Effect, usize) {
    if s.live {
        match lookup(s.capabilities, id) {
            Some(DecisionV::Grant) => (
                Effect::Wait { event: e, dst, request: capability_request(id, args), args },
                s.replay_index,
            ),
            Some(DecisionV::Mock(v)) => (
                write_reg(
                    with_capability(
                        e,
                        CapabilityTraceV { id, decision: CapabilityTraceDecision::Mocked, args, result: v },
                    ),
                    regs,
                    dst,
                    v,
                    pc,
                ),
                s.replay_index,
            ),
            _ => (
                Effect::Fail {
                    event: e,
                    error: policy_error(PolicyErrorKind::DeniedCapability, id, "capability unavailable at runtime"@),
                },
                s.replay_index,
            ),
        }
    } else if s.replay_index >= s.replay.len() {
        (Effect::Fail { event: e, error: replay_error("missing recorded capability "@ + id) }, s.replay_index)
    } else {
        let rec = s.replay[s.replay_index as int];
        let next = (s.replay_index + 1) as usize;
        if rec.id != id || !values_eq(rec.args, args) {
            (Effect::Fail { event: e, error: replay_error("capability call mismatch for "@ + id) }, next)
        } else {
            (
                write_reg(
                    with_capability(e, CapabilityTraceV { id, decision: rec.decision, args, result: rec.result }),
                    regs,
                    dst,
                    rec.result,
                    pc,
                ),
                next,
            )
        }
    }
}

/// Running instruction `pc` of `f` on `regs`, `depth` frames deep, with `e` its fresh event:
/// the effect and the new position in the recorded capability calls.
#[verifier::opaque]
pub open spec fn apply(s: VmV, depth: nat, f: FunctionV, regs: Seq<ValueV>, pc: usize, e: TraceEventV) -> (Effect, usize) {
    let m = s.module;
    let idx = s.replay_index;
    match f.code[pc as int] {
        InstructionV::Const { dst, constant } => (write_reg(e, regs, dst, m.constants[constant as int], pc), idx),
        InstructionV::Move { dst, src } => (write_reg(e, regs, dst, regs[src as int], pc), idx),
        InstructionV::Add { dst, lhs, rhs } => (
            num_effect(e, regs, dst, pc, arith(ArithOp::Add, regs[lhs as int], regs[rhs as int]),
                |a: Number, b: Number| HostRequestV::Arith { op: ArithOp::Add, lhs: a, rhs: b }),
            idx,
        ),
        InstructionV::Sub { dst, lhs, rhs } => (
            num_effect(e, regs, dst, pc, arith(ArithOp::Sub, regs[lhs as int], regs[rhs as int]),
                |a: Number, b: Number| HostRequestV::Arith { op: ArithOp::Sub, lhs: a, rhs: b }),
            idx,
        ),
        InstructionV::Mul { dst, lhs, rhs } => (
            num_effect(e, regs, dst, pc, arith(ArithOp::Mul, regs[lhs as int], regs[rhs as int]),
                |a: Number, b: Number| HostRequestV::Arith { op: ArithOp::Mul, lhs: a, rhs: b }),
            idx,
        ),
        InstructionV::Div { dst, lhs, rhs } => (
            num_effect(e, regs, dst, pc, arith(ArithOp::Div, regs[lhs as int], regs[rhs as int]),
                |a: Number, b: Number| HostRequestV::Arith { op: ArithOp::Div, lhs: a, rhs: b }),
            idx,
        ),
        InstructionV::Eq { dst, lhs, rhs } => (
            write_reg(e, regs, dst, ValueV::Bool(value_eq(regs[lhs as int], regs[rhs as int])), pc),
            idx,
        ),
        InstructionV::Lt { dst, lhs, rhs } => (
            num_effect(e, regs, dst, pc, less(regs[lhs as int], regs[rhs as int]),
                |a: Number, b: Number| HostRequestV::Less { lhs: a, rhs: b }),
            idx,
        ),
        InstructionV::Jump { target } => (Effect::Next { event: e, registers: regs, next_pc: target }, idx),
        InstructionV::JumpIf { cond, target } => (
            Effect::Next {
                event: e,
                registers: regs,
                next_pc: if truthy(regs[cond as int]) {
                    target
                } else {
                    (pc + 1) as usize
                },
            },
            idx,
        ),
        InstructionV::Call { dst, function, args } => match find_function(m.functions, function) {
            None => (Effect::Fail { event: e, error: runtime("missing callee "@ + function) }, idx),
            Some(ci) => match enter_check(s.limits, depth, m.functions[ci]) {
                Err(err) => (Effect::Fail { event: e, error: err }, idx),
                Ok(()) => (Effect::Enter { event: e, dst, callee: ci as usize, args: read_regs(regs, args) }, idx),
            },
        },
        InstructionV::Ret { src } => (Effect::Return { event: e, value: regs[src as int] }, idx),
        InstructionV::CapCall { dst, capability, args } => cap_effect(
            s,
            e,
            regs,
            pc,
            dst,
            capability,
            read_regs(regs, args),
        ),
        InstructionV::ArrayNew { dst, items } => if s.limits.max_array_items matches Some(max) && items.len()
            > max {
            (
                Effect::Fail {
                    event: e,
                    error: resource(
                        "array_new requested "@ + decimal(items.len()) + " items, max is "@ + decimal(
                            s.limits.max_array_items->Some_0 as nat,
                        ),
                    ),
                },
                idx,
            )
        } else {
            (write_reg(e, regs, dst, ValueV::Array(read_regs(regs, items)), pc), idx)
        },
        InstructionV::ArrayGet { dst, array, index } => match regs[array as int] {
            ValueV::Array(items) => match as_index(regs[index as int]) {
                None => (Effect::Fail { event: e, error: index_error() }, idx),
                Some(i) => if i < items.len() {
                    (write_reg(e, regs, dst, items[i as int], pc), idx)
                } else {
                    (Effect::Fail { event: e, error: bounds_error(i) }, idx)
                },
            },
            _ => (Effect::Fail { event: e, error: runtime("array_get target is not an array"@) }, idx),
        },
        InstructionV::ArraySet { array, index, value } => match as_index(regs[index as int]) {
            None => (Effect::Fail { event: e, error: index_error() }, idx),
            Some(i) => match regs[array as int] {
                ValueV::Array(items) => if i < items.len() {
                    let updated = ValueV::Array(items.update(i as int, regs[value as int]));
                    (write_reg(e, regs, array, updated, pc), idx)
                } else {
                    (Effect::Fail { event: e, error: bounds_error(i) }, idx)
                },
                _ => (Effect::Fail { event: e, error: runtime("array_set target is not an array"@) }, idx),
            },
        },
    }
}

// ---------------------------------------------------------------------------------------
// Steps

/// The events that unwinding the frames `fs` after `err` records: each pending call
/// instruction fails with the same error, innermost first.
pub open spec fn unwind_events(fs: Seq<FrameV>, err: ChronicleErrorV) -> Seq<TraceEventV>
    decreases fs.len(),
{
    if fs.len() == 0 {
        Seq::empty()
    } else {
        seq![failed(fs.last().call->Some_0.0, err)] + unwind_events(fs.drop_last(), err)
    }
}

/// The run ends with `err` after the innermost frame has been removed: every remaining
/// frame is unwound.
pub open spec fn finish_failed(s: VmV, err: ChronicleErrorV) -> (VmV, StepV) {
    (
        VmV { frames: Seq::empty(), events: s.events + unwind_events(s.frames, err), waiting: None, ..s },
        StepV::Finished(Err(err)),
    )
}

/// The innermost frame fails with `err`, its instruction recorded by `e`.
pub open spec fn fail_top(s: VmV, e: TraceEventV, err: ChronicleErrorV) -> (VmV, StepV) {
    finish_failed(VmV { frames: s.frames.drop_last(), events: s.events.push(failed(e, err)), ..s }, err)
}

/// The innermost frame has returned `v` (its frame already removed): the caller's call
/// instruction completes, or the run ends.
pub open spec fn deliver(s: VmV, v: ValueV) -> (VmV, StepV) {
    if s.frames.len() == 0 {
        (s, StepV::Finished(Ok(v)))
    } else {
        let caller = s.frames.last();
        let (e, dst) = caller.call->Some_0;
        let frame = FrameV {
            function: caller.function,
            pc: (caller.pc + 1) as usize,
            registers: caller.registers.update(dst as int, v),
            call: None,
        };
        (
            VmV {
                frames: s.frames.drop_last().push(frame),
                events: s.events.push(sealed(add_change(e, dst, v))),
                ..s
            },
            StepV::Running,
        )
    }
}

pub open spec fn set_top(s: VmV, f: FrameV) -> Seq<FrameV> {
    s.frames.drop_last().push(f)
}

/// The machine after the innermost frame `top` ran an instruction with effect `eff`.
#[verifier::opaque]
pub open spec fn conclude(s2: VmV, top: FrameV, eff: Effect) -> (VmV, StepV) {
    match eff {
        Effect::Next { event, registers, next_pc } => (
            VmV {
                frames: set_top(s2, FrameV { pc: next_pc, registers, ..top }),
                events: s2.events.push(sealed(event)),
                ..s2
            },
            StepV::Running,
        ),
        Effect::Return { event, value } => deliver(
            VmV { frames: s2.frames.drop_last(), events: s2.events.push(sealed(event)), ..s2 },
            value,
        ),
        Effect::Fail { event, error } => fail_top(s2, event, error),
        Effect::Wait { event, dst, request, args } => (
            VmV { waiting: Some(WaitingV { event, dst, request, args }), ..s2 },
            StepV::Host(request),
        ),
        Effect::Enter { event, dst, callee, args } => (
            VmV {
                frames: set_top(s2, FrameV { call: Some((event, dst)), ..top }).push(new_frame(s2.module, callee, args)),
                ..s2
            },
            StepV::Running,
        ),
    }
}

/// One step of the machine.
#[verifier::opaque]
pub open spec fn step(s: VmV) -> (VmV, StepV) {
    if s.waiting is Some {
        (s, StepV::Host(s.waiting->Some_0.request))
    } else if s.frames.len() == 0 {
        (s, StepV::Idle)
    } else {
        let top = s.frames.last();
        let f = s.module.functions[top.function as int];
        if top.pc >= f.code.len() {
            finish_failed(
                VmV { frames: s.frames.drop_last(), ..s },
                runtime("function "@ + f.name + " ended without ret"@),
            )
        } else {
            let e = new_event(f, top.pc);
            match count_check(s.limits, s.count) {
                Err(err) => fail_top(s, e, err),
                Ok(c) => {
                    let s1 = VmV { count: c, ..s };
                    let (eff, idx) = apply(s1, s.frames.len(), f, top.registers, top.pc, e);
                    conclude(VmV { replay_index: idx, ..s1 }, top, eff)
                },
            }
        }
    }
}

/// The machine after the host replies to the suspended instruction.
#[verifier::opaque]
pub open spec fn resume(s: VmV, reply: HostReplyV) -> (VmV, StepV) {
    match s.waiting {
        None => (s, if s.frames.len() == 0 {
            StepV::Idle
        } else {
            StepV::Running
        }),
        Some(w) => {
            let s1 = VmV { waiting: None, ..s };
            match reply_value(w.request, reply) {
                Ok(v) => {
                    let e = match request_capability(w.request) {
                        Some(id) => with_capability(
                            w.event,
                            CapabilityTraceV { id, decision: CapabilityTraceDecision::Granted, args: w.args, result: v },
                        ),
                        None => w.event,
                    };
                    let top = s1.frames.last();
                    (
                        VmV {
                            frames: set_top(
                                s1,
                                FrameV { pc: (top.pc + 1) as usize, registers: top.registers.update(w.dst as int, v), ..top },
                            ),
                            events: s1.events.push(sealed(add_change(e, w.dst, v))),
                            ..s1
                        },
                        StepV::Running,
                    )
                },
                Err(err) => fail_top(s1, w.event, err),
            }
        },
    }
}

/// Starting a run at the function exported as `entry`: the machine with one frame, or the
/// failure that prevents the run. Events and the instruction count start afresh.
pub open spec fn start(s: VmV, entry: Seq<char>, live: bool) -> (VmV, Result<(), ChronicleErrorV>) {
    let s0 = VmV { count: 0, live, frames: Seq::empty(), events: Seq::empty(), waiting: None, ..s };
    match find_export(s.module.exports, entry) {
        None => (s0, Err(runtime("missing entry export "@ + entry))),
        Some(fi) => match enter_check(s.limits, 0, s.module.functions[fi as int]) {
            Err(err) => (s0, Err(err)),
            Ok(()) => (VmV { frames: seq![new_frame(s.module, fi, Seq::empty())], ..s0 }, Ok(())),
        },
    }
}


/// What an effect promises of the frame it came from.
pub open spec fn effect_wf(m: ModuleV, f: FunctionV, regs: Seq<ValueV>, eff: Effect) -> bool {
    match eff {
        Effect::Next { registers, next_pc, .. } => registers.len() == regs.len() && next_pc <= f.code.len(),
        Effect::Wait { dst, .. } => dst < regs.len(),
        Effect::Enter { dst, callee, .. } => dst < regs.len() && callee < m.functions.len(),
        _ => true,
    }
}

/// An instruction of a well-formed module keeps its frame well formed.
pub proof fn lemma_apply_wf(s: VmV, depth: nat, fi: usize, regs: Seq<ValueV>, pc: usize, e: TraceEventV)
    requires
        module_wf(s.module),
        fi < s.module.functions.len(),
        pc < s.module.functions[fi as int].code.len(),
        regs.len() == s.module.functions[fi as int].registers,
    ensures
        effect_wf(s.module, s.module.functions[fi as int], regs, apply(s, depth, s.module.functions[fi as int], regs, pc, e).0),
{
    reveal(apply);
    let f = s.module.functions[fi as int];
    assert(crate::checks::fn_wf(s.module, f));
    assert(crate::checks::instr_wf(s.module, f, f.code[pc as int]));
    if let InstructionV::Call { function, .. } = f.code[pc as int] {
        crate::bytecode::lemma_find_function(s.module.functions, function);
    }
}

/// An instruction's effect does not depend on the frames, the events, the instruction count
/// or a suspended instruction of the machine.
pub proof fn lemma_apply_ignores_frames(s: VmV, t: VmV, depth: nat, f: FunctionV, regs: Seq<ValueV>, pc: usize, e: TraceEventV)
    requires
        s.module == t.module,
        s.capabilities == t.capabilities,
        s.replay == t.replay,
        s.replay_index == t.replay_index,
        s.limits == t.limits,
        s.live == t.live,
    ensures
        apply(s, depth, f, regs, pc, e) == apply(t, depth, f, regs, pc, e),
{
    reveal(apply);
}

// ---------------------------------------------------------------------------------------
// Construction

/// The negotiation entries of a module's declared capabilities under a policy, on a host.
pub open spec fn negotiated(host: Seq<CapabilityDeclV>, policy: Seq<(Seq<char>, DecisionV)>, m: ModuleV) -> Seq<NegotiationEntryV> {
    m.capabilities.map_values(|d: CapabilityDeclV| entry_for(host, policy, d))
}

/// The capability table a machine for `m` gets under `policy` on `host`, or why there is
/// none: the first verifier failure, else the policy failure of the first capability that
/// was neither granted (by an exact registration of the host) nor mocked.
pub open spec fn admitted(host: Seq<CapabilityDeclV>, m: ModuleV, policy: Seq<(Seq<char>, DecisionV)>) -> Result<Seq<(Seq<char>, DecisionV)>, ChronicleErrorV> {
    match verify_module(m) {
        Err(e) => Err(ChronicleErrorV::Verify(e)),
        Ok(()) => {
            let es = negotiated(host, policy, m);
            match first_failure(es) {
                Some(i) => Err(ChronicleErrorV::Policy(entry_failure(es[i])->Some_0)),
                None => Ok(table_from(es, es.len() as int)),
            }
        },
    }
}

/// A machine for `m` with the decisions `table`, no limits and no run in progress.
pub open spec fn fresh(m: ModuleV, table: Seq<(Seq<char>, DecisionV)>, replay: Seq<CapabilityTraceV>, live: bool) -> VmV {
    VmV {
        module: m,
        capabilities: table,
        replay,
        replay_index: 0,
        limits: no_limits(),
        count: 0,
        live,
        frames: Seq::empty(),
        events: Seq::empty(),
        waiting: None,
    }
}

/// The capability calls recorded in a list of events, in order.
pub open spec fn recorded_calls(events: Seq<TraceEventV>) -> Seq<CapabilityTraceV>
    decreases events.len(),
{
    if events.len() == 0 {
        Seq::empty()
    } else {
        recorded_calls(events.drop_last()) + match events.last().capability {
            Some(c) => seq![c],
            None => Seq::empty(),
        }
    }
}

/// Every declared capability granted, in declaration order.
pub open spec fn all_granted(caps: Seq<CapabilityDeclV>) -> Seq<(Seq<char>, DecisionV)> {
    caps.map_values(|d: CapabilityDeclV| (d.id, DecisionV::Grant))
}

/// The function an export lookup finds is one of the exported indices.
pub proof fn lemma_find_export_in(es: Seq<(Seq<char>, usize)>, name: Seq<char>)
    ensures
        find_export(es, name) matches Some(i) ==> exists|k: int| 0 <= k < es.len() && (#[trigger] es[k]).1 == i,
    decreases es.len(),
{
    if es.len() > 0 {
        lemma_find_export_in(es.drop_last(), name);
        if let Some(i) = find_export(es.drop_last(), name) {
            let k = choose|k: int| 0 <= k < es.drop_last().len() && (#[trigger] es.drop_last()[k]).1 == i;
            assert(es[k] == es.drop_last()[k]);
        } else if es.last().0 == name {
            assert(es[es.len() - 1].1 == es.last().1);
        }
    }
}

/// The step of a machine whose innermost frame runs an instruction within the budget.
pub proof fn lemma_step_instr(s: VmV)
    requires
        s.waiting is None,
        s.frames.len() > 0,
        s.frames.last().pc < s.module.functions[s.frames.last().function as int].code.len(),
        count_check(s.limits, s.count) is Ok,
    ensures
        ({
            let top = s.frames.last();
            let f = s.module.functions[top.function as int];
            let s1 = VmV { count: count_check(s.limits, s.count)->Ok_0, ..s };
            let (eff, idx) = apply(s1, s.frames.len(), f, top.registers, top.pc, new_event(f, top.pc));
            step(s) == conclude(VmV { replay_index: idx, ..s1 }, top, eff)
        }),
{
    reveal(step);
}

/// The step of a machine whose innermost frame has run past its code, or whose budget is
/// spent, or that waits or has no run.
pub proof fn lemma_step_other(s: VmV)
    ensures
        s.waiting matches Some(w) ==> step(s) == (s, StepV::Host(w.request)),
        s.waiting is None && s.frames.len() == 0 ==> step(s) == (s, StepV::Idle),
        s.waiting is None && s.frames.len() > 0 && s.frames.last().pc >= s.module.functions[s.frames.last().function as int].code.len()
            ==> step(s).1 is Finished && step(s).1->Finished_0 is Err,
        s.waiting is None && s.frames.len() > 0 && s.frames.last().pc < s.module.functions[s.frames.last().function as int].code.len()
            && count_check(s.limits, s.count) is Err ==> step(s).1 is Finished && step(s).1->Finished_0 is Err,
{
    reveal(step);
}

/// What the machine keeps true of its state: the module is well formed, each frame runs a
/// function of the module with that function's registers, every frame but the innermost
/// waits in a call instruction, and a suspended instruction belongs to the innermost frame.
pub open spec fn state_wf(s: VmV) -> bool {
    &&& module_wf(s.module)
    &&& forall|i: int| 0 <= i < s.frames.len() ==> frame_wf(s.module, #[trigger] s.frames[i])
    &&& forall|i: int| 0 <= i < s.frames.len() - 1 ==> caller_wf(s.module, #[trigger] s.frames[i])
    &&& s.frames.len() > 0 ==> s.frames.last().call is None
    &&& s.waiting matches Some(w) ==> {
        &&& s.frames.len() > 0
        &&& w.dst < s.frames.last().registers.len()
        &&& s.frames.last().pc < s.module.functions[s.frames.last().function as int].code.len()
    }
}

pub open spec fn frame_wf(m: ModuleV, f: FrameV) -> bool {
    &&& f.function < m.functions.len()
    &&& f.registers.len() == m.functions[f.function as int].registers
    &&& f.pc <= m.functions[f.function as int].code.len()
}

pub open spec fn caller_wf(m: ModuleV, f: FrameV) -> bool {
    &&& f.call is Some
    &&& f.call->Some_0.1 < f.registers.len()
    &&& f.pc < m.functions[f.function as int].code.len()
}

} // verus!
