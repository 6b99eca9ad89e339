use vstd::prelude::*;
use crate::bytecode::{Function, FunctionV, Instruction, InstructionV, Module, ModuleV, functions_view, instructions_view};
use crate::digest::{seal_event, sealed};
use crate::error::{ChronicleError, ChronicleErrorV, PolicyError, PolicyErrorKind, error_text};
use crate::machine::{
    ArithOp, Effect, FrameV, HostReplyV, HostRequestV, NumOutcome, Number, StepV, VmLimits, VmV, WaitingV, add_change,
    apply, arith, as_index, capability_request, caller_wf, count_check, enter_check, failed, finish_failed, less, new_event,
    read_regs, state_wf, unwind_events, lemma_apply_ignores_frames, lemma_apply_wf, effect_wf, conclude, admitted, fresh,
    all_granted, recorded_calls,
    with_capability,
};
use crate::checks::{Verifier, fn_wf, instr_wf, lemma_verified_module_wf, module_wf, regs_in, verify_module};
use crate::policy::lookup_exec;
use crate::text::{concat2, concat3, push_decimal, string_of, with_decimal, str_eq};
use crate::value::{float_bits_is_zero, truthy, value_equal, value_lists_equal};
use crate::trace::ReplayError;
use crate::policy::{CapabilityDecision, DecisionTable, HostPolicy, HostRegistry, builtin_host, table_view};
use crate::trace::{
    CapabilityTrace, CapabilityTraceDecision, CapabilityTraceV, RegisterChange, TraceEvent, TraceEventV, changes_view,
    clone_capability_trace, events_view, Trace,
};
use crate::value::{Value, ValueV, clone_value, clone_values, lemma_values_view, lemma_values_view_ext, value_view, values_view};

verus! {

/// Work the machine hands to its host (see [`HostRequestV`]).
#[derive(Debug)]
pub enum HostRequest {
    Arith { op: ArithOp, lhs: Number, rhs: Number },
    Less { lhs: Number, rhs: Number },
    Print { args: Vec<Value> },
    Clock,
    Random,
    Call { capability: String, args: Vec<Value> },
}

impl View for HostRequest {
    type V = HostRequestV;

    open spec fn view(&self) -> HostRequestV {
        match self {
            HostRequest::Arith { op, lhs, rhs } => HostRequestV::Arith { op: *op, lhs: *lhs, rhs: *rhs },
            HostRequest::Less { lhs, rhs } => HostRequestV::Less { lhs: *lhs, rhs: *rhs },
            HostRequest::Print { args } => HostRequestV::Print { args: values_view(args@) },
            HostRequest::Clock => HostRequestV::Clock,
            HostRequest::Random => HostRequestV::Random,
            HostRequest::Call { capability, args } => HostRequestV::Call { capability: capability@, args: values_view(args@) },
        }
    }
}

/// The host's reply to a [`HostRequest`] (see [`HostReplyV`]).
#[derive(Debug)]
pub enum HostReply {
    Float(u64),
    Truth(bool),
    Done,
    Time(Result<u64, String>),
    Returned(Result<Value, String>),
}

impl View for HostReply {
    type V = HostReplyV;

    open spec fn view(&self) -> HostReplyV {
        match self {
            HostReply::Float(b) => HostReplyV::Float(*b),
            HostReply::Truth(b) => HostReplyV::Truth(*b),
            HostReply::Done => HostReplyV::Done,
            HostReply::Time(Ok(t)) => HostReplyV::Time(Ok(*t)),
            HostReply::Time(Err(m)) => HostReplyV::Time(Err(m@)),
            HostReply::Returned(Ok(v)) => HostReplyV::Returned(Ok(v@)),
            HostReply::Returned(Err(m)) => HostReplyV::Returned(Err(m@)),
        }
    }
}

pub fn clone_request(r: &HostRequest) -> (c: HostRequest)
    ensures
        c@ == r@,
{
    match r {
        HostRequest::Arith { op, lhs, rhs } => HostRequest::Arith { op: *op, lhs: *lhs, rhs: *rhs },
        HostRequest::Less { lhs, rhs } => HostRequest::Less { lhs: *lhs, rhs: *rhs },
        HostRequest::Print { args } => HostRequest::Print { args: clone_values(args) },
        HostRequest::Clock => HostRequest::Clock,
        HostRequest::Random => HostRequest::Random,
        HostRequest::Call { capability, args } => HostRequest::Call { capability: capability.clone(), args: clone_values(args) },
    }
}

/// A call in progress (see [`FrameV`]).
#[derive(Debug)]
pub struct Frame {
    pub function: usize,
    pub pc: usize,
    pub registers: Vec<Value>,
    pub call: Option<(TraceEvent, usize)>,
}

impl View for Frame {
    type V = FrameV;

    open spec fn view(&self) -> FrameV {
        FrameV {
            function: self.function,
            pc: self.pc,
            registers: values_view(self.registers@),
            call: match self.call {
                Some((e, d)) => Some((e@, d)),
                None => None,
            },
        }
    }
}

/// An instruction suspended until the host replies (see [`WaitingV`]).
#[derive(Debug)]
pub struct Waiting {
    pub event: TraceEvent,
    pub dst: usize,
    pub request: HostRequest,
    pub args: Vec<Value>,
}

impl View for Waiting {
    type V = WaitingV;

    open spec fn view(&self) -> WaitingV {
        WaitingV { event: self.event@, dst: self.dst, request: self.request@, args: values_view(self.args@) }
    }
}

/// What one step of the machine reports (see [`StepV`]).
#[derive(Debug)]
pub enum Step {
    Idle,
    Running,
    Host(HostRequest),
    Finished(Result<Value, ChronicleError>),
}

impl View for Step {
    type V = StepV;

    open spec fn view(&self) -> StepV {
        match self {
            Step::Idle => StepV::Idle,
            Step::Running => StepV::Running,
            Step::Host(r) => StepV::Host(r@),
            Step::Finished(Ok(v)) => StepV::Finished(Ok(v@)),
            Step::Finished(Err(e)) => StepV::Finished(Err(e@)),
        }
    }
}

pub open spec fn frames_view(fs: Seq<Frame>) -> Seq<FrameV> {
    fs.map_values(|f: Frame| f@)
}

pub open spec fn replay_view(cs: Seq<CapabilityTrace>) -> Seq<CapabilityTraceV> {
    cs.map_values(|c: CapabilityTrace| c@)
}

pub open spec fn waiting_view(w: Option<Waiting>) -> Option<WaitingV> {
    match w {
        Some(w) => Some(w@),
        None => None,
    }
}

/// The register `i` of `regs`.
pub fn read_reg(regs: &Vec<Value>, i: usize) -> (v: Value)
    requires
        i < regs.len(),
    ensures
        v@ == values_view(regs@)[i as int],
{
    proof {
        lemma_values_view(regs@);
    }
    clone_value(&regs[i])
}

/// Writing one register changes its view and no other.
pub proof fn lemma_values_view_update(s: Seq<Value>, i: int, v: Value)
    requires
        0 <= i < s.len(),
    ensures
        values_view(s.update(i, v)) == values_view(s).update(i, v@),
{
    lemma_values_view(s);
    lemma_values_view(s.update(i, v));
    assert(values_view(s.update(i, v)) =~= values_view(s).update(i, v@));
}

/// Writes register `r` and records the change in `event`.
pub fn set_reg(regs: &mut Vec<Value>, event: &mut TraceEvent, r: usize, v: Value)
    requires
        r < old(regs).len(),
    ensures
        final(regs).len() == old(regs).len(),
        values_view(final(regs)@) == values_view(old(regs)@).update(r as int, v@),
        final(event)@ == add_change(old(event)@, r, v@),
{
    proof {
        lemma_values_view_update(regs@, r as int, v);
    }
    let c = clone_value(&v);
    regs.set(r, v);
    event.register_changes.push(RegisterChange { register: r, value: c });
    assert(changes_view(event.register_changes@) =~= changes_view(old(event).register_changes@).push(
        crate::trace::RegisterChangeV { register: r, value: c@ },
    ));
}

} // verus!

verus! {

/// The virtual machine: a verified module, the capability decisions negotiated for it,
/// the recorded capability calls a replay consumes, the limits of a run, and the state of
/// the run in progress.
pub struct Vm {
    module: Module,
    capabilities: DecisionTable,
    replay_capabilities: Vec<CapabilityTrace>,
    replay_capability_index: usize,
    limits: VmLimits,
    instruction_count: usize,
    live: bool,
    frames: Vec<Frame>,
    events: Vec<TraceEvent>,
    waiting: Option<Waiting>,
}

impl View for Vm {
    type V = VmV;

    closed spec fn view(&self) -> VmV {
        VmV {
            module: self.module@,
            capabilities: table_view(self.capabilities@),
            replay: replay_view(self.replay_capabilities@),
            replay_index: self.replay_capability_index,
            limits: self.limits,
            count: self.instruction_count,
            live: self.live,
            frames: frames_view(self.frames@),
            events: events_view(self.events@),
            waiting: waiting_view(self.waiting),
        }
    }
}

/// What running one instruction did, the event and registers being updated in place.
enum Outcome {
    Next(usize),
    Return(Value),
    Fail(ChronicleError),
    Wait(usize, HostRequest, Vec<Value>),
    Enter(usize, usize, Vec<Value>),
}

spec fn outcome_is(o: Outcome, eff: Effect, ev: TraceEventV, regs: Seq<ValueV>) -> bool {
    match (o, eff) {
        (Outcome::Next(n), Effect::Next { event, registers, next_pc }) => ev == event && regs == registers && n
            == next_pc,
        (Outcome::Return(v), Effect::Return { event, value }) => ev == event && v@ == value,
        (Outcome::Fail(e), Effect::Fail { event, error }) => ev == event && e@ == error,
        (Outcome::Wait(d, r, a), Effect::Wait { event, dst, request, args }) => ev == event && d == dst && r@
            == request && values_view(a@) == args,
        (Outcome::Enter(d, c, a), Effect::Enter { event, dst, callee, args }) => ev == event && d == dst && c
            == callee && values_view(a@) == args,
        _ => false,
    }
}

spec fn effect_of(o: Outcome, ev: TraceEventV, regs: Seq<ValueV>) -> Effect {
    match o {
        Outcome::Next(n) => Effect::Next { event: ev, registers: regs, next_pc: n },
        Outcome::Return(v) => Effect::Return { event: ev, value: v@ },
        Outcome::Fail(e) => Effect::Fail { event: ev, error: e@ },
        Outcome::Wait(d, r, a) => Effect::Wait { event: ev, dst: d, request: r@, args: values_view(a@) },
        Outcome::Enter(d, c, a) => Effect::Enter { event: ev, dst: d, callee: c, args: values_view(a@) },
    }
}

enum NumOut {
    Value(Value),
    Ask(Number, Number),
    Fail(ChronicleError),
}

spec fn num_out_is(o: NumOut, n: NumOutcome) -> bool {
    match (o, n) {
        (NumOut::Value(v), NumOutcome::Value(w)) => v@ == w,
        (NumOut::Ask(a, b), NumOutcome::Ask(c, d)) => a == c && b == d,
        (NumOut::Fail(e), NumOutcome::Fail(f)) => e@ == f,
        _ => false,
    }
}

fn runtime_error(s: String) -> (e: ChronicleError)
    ensures
        e@ == ChronicleErrorV::Runtime(s@),
{
    ChronicleError::Runtime(s)
}

fn as_number_exec(v: &Value) -> (n: Option<Number>)
    ensures
        n == crate::machine::as_number(v@),
{
    match v {
        Value::I64(x) => Some(Number::I64(*x)),
        Value::F64(b) => Some(Number::F64(*b)),
        _ => None,
    }
}

fn arith_exec(op: ArithOp, lhs: &Value, rhs: &Value) -> (r: NumOut)
    ensures
        num_out_is(r, arith(op, lhs@, rhs@)),
{
    let zero = match rhs {
        Value::I64(x) => *x == 0,
        Value::F64(b) => *b & 0x7fff_ffff_ffff_ffffu64 == 0,
        _ => false,
    };
    if op == ArithOp::Div && zero {
        return NumOut::Fail(runtime_error(string_of("division by zero")));
    }
    match (lhs, rhs) {
        (Value::I64(a), Value::I64(b)) => match op {
            ArithOp::Add => NumOut::Value(Value::I64(a.wrapping_add(*b))),
            ArithOp::Sub => NumOut::Value(Value::I64(a.wrapping_sub(*b))),
            ArithOp::Mul => NumOut::Value(Value::I64(a.wrapping_mul(*b))),
            ArithOp::Div => match a.checked_div(*b) {
                Some(q) => NumOut::Value(Value::I64(q)),
                None => NumOut::Fail(runtime_error(string_of("integer overflow"))),
            },
        },
        _ => match (as_number_exec(lhs), as_number_exec(rhs)) {
            (Some(a), Some(b)) => NumOut::Ask(a, b),
            _ => NumOut::Fail(runtime_error(string_of("numeric operands required"))),
        },
    }
}

fn less_exec(lhs: &Value, rhs: &Value) -> (r: NumOut)
    ensures
        num_out_is(r, less(lhs@, rhs@)),
{
    match (lhs, rhs) {
        (Value::I64(a), Value::I64(b)) => NumOut::Value(Value::Bool(*a < *b)),
        _ => match (as_number_exec(lhs), as_number_exec(rhs)) {
            (Some(a), Some(b)) => NumOut::Ask(a, b),
            _ => NumOut::Fail(runtime_error(string_of("numeric operands required"))),
        },
    }
}

fn index_exec(v: &Value) -> (r: Option<usize>)
    ensures
        r == as_index(v@),
{
    match v {
        Value::I64(i) => if *i >= 0 {
            Some(*i as usize)
        } else {
            None
        },
        _ => None,
    }
}

fn read_regs_exec(regs: &Vec<Value>, idx: &Vec<usize>) -> (r: Vec<Value>)
    requires
        forall|i: int| 0 <= i < idx.len() ==> #[trigger] idx@[i] < regs.len(),
    ensures
        values_view(r@) == read_regs(values_view(regs@), idx@),
{
    proof {
        lemma_values_view(regs@);
    }
    let mut out: Vec<Value> = Vec::new();
    let mut i: usize = 0;
    while i < idx.len()
        invariant
            i <= idx.len(),
            out.len() == i,
            values_view(regs@).len() == regs.len(),
            forall|j: int| 0 <= j < idx.len() ==> #[trigger] idx@[j] < regs.len(),
            forall|j: int| 0 <= j < regs.len() ==> #[trigger] values_view(regs@)[j] == value_view(regs@[j]),
            forall|j: int| 0 <= j < i ==> value_view(#[trigger] out@[j]) == values_view(regs@)[idx@[j] as int],
        decreases idx.len() - i,
    {
        let v = clone_value(&regs[idx[i]]);
        out.push(v);
        i = i + 1;
    }
    proof {
        lemma_values_view(out@);
    }
    assert(values_view(out@) =~= read_regs(values_view(regs@), idx@));
    out
}

fn capability_request_exec(id: &String, args: &Vec<Value>) -> (r: HostRequest)
    ensures
        r@ == capability_request(id@, values_view(args@)),
{
    if str_eq(id.as_str(), "log.print@1") {
        HostRequest::Print { args: clone_values(args) }
    } else if str_eq(id.as_str(), "clock.now@1") {
        HostRequest::Clock
    } else if str_eq(id.as_str(), "random.u64@1") {
        HostRequest::Random
    } else {
        HostRequest::Call { capability: id.clone(), args: clone_values(args) }
    }
}

fn reply_value_exec(req: &HostRequest, reply: HostReply) -> (r: Result<Value, ChronicleError>)
    ensures
        match (r, crate::machine::reply_value(req@, reply@)) {
            (Ok(a), Ok(b)) => a@ == b,
            (Err(a), Err(b)) => a@ == b,
            _ => false,
        },
{
    match (req, reply) {
        (HostRequest::Arith { .. }, HostReply::Float(b)) => Ok(Value::F64(b)),
        (HostRequest::Less { .. }, HostReply::Truth(b)) => Ok(Value::Bool(b)),
        (HostRequest::Print { .. }, HostReply::Done) => Ok(Value::Nil),
        (HostRequest::Clock, HostReply::Time(Ok(secs))) => Ok(Value::I64(secs as i64)),
        (HostRequest::Random, HostReply::Time(Ok(nanos))) => Ok(Value::I64((nanos ^ 0x9E37_79B9_7F4A_7C15u64) as i64)),
        (HostRequest::Clock, HostReply::Time(Err(m))) => Err(ChronicleError::Runtime(m)),
        (HostRequest::Random, HostReply::Time(Err(m))) => Err(ChronicleError::Runtime(m)),
        (HostRequest::Call { .. }, HostReply::Returned(Ok(v))) => Ok(v),
        (HostRequest::Call { .. }, HostReply::Returned(Err(m))) => Err(ChronicleError::Runtime(m)),
        _ => Err(runtime_error(string_of("host reply does not match the request"))),
    }
}

fn request_capability_exec(req: &HostRequest) -> (r: Option<String>)
    ensures
        match r {
            Some(s) => crate::machine::request_capability(req@) == Some(s@),
            None => crate::machine::request_capability(req@) is None,
        },
{
    match req {
        HostRequest::Print { .. } => Some(string_of("log.print@1")),
        HostRequest::Clock => Some(string_of("clock.now@1")),
        HostRequest::Random => Some(string_of("random.u64@1")),
        HostRequest::Call { capability, .. } => Some(capability.clone()),
        _ => None,
    }
}

fn make_event(f: &Function, pc: usize) -> (e: TraceEvent)
    requires
        pc < f.code.len(),
    ensures
        e@ == new_event(f@, pc),
{
    let source_line = if pc < f.source_lines.len() {
        f.source_lines[pc]
    } else {
        None
    };
    assert(f@.code[pc as int] == f.code@[pc as int]@);
    let e = TraceEvent {
        function: f.name.clone(),
        pc,
        source_line,
        opcode: string_of(f.code[pc].opcode()),
        register_changes: Vec::new(),
        capability: None,
        error: None,
        checksum: 0,
    };
    assert(changes_view(e.register_changes@) =~= Seq::empty());
    e
}

fn count_check_exec(limits: &VmLimits, count: usize) -> (r: Result<usize, ChronicleError>)
    ensures
        match (r, count_check(*limits, count)) {
            (Ok(a), Ok(b)) => a == b,
            (Err(a), Err(b)) => a@ == b,
            _ => false,
        },
{
    let max: usize = match limits.max_instructions {
        Some(m) => m,
        None => usize::MAX,
    };
    if count >= max {
        Err(ChronicleError::ResourceLimit(with_decimal("instruction budget exceeded max ", max)))
    } else {
        Ok(count + 1)
    }
}

fn enter_check_exec(limits: &VmLimits, depth: usize, f: &Function) -> (r: Result<(), ChronicleError>)
    ensures
        match (r, enter_check(*limits, depth as nat, f@)) {
            (Ok(()), Ok(())) => true,
            (Err(a), Err(b)) => a@ == b,
            _ => false,
        },
{
    if let Some(max) = limits.max_call_depth {
        if depth >= max {
            return Err(ChronicleError::ResourceLimit(with_decimal("call depth exceeded max ", max)));
        }
    }
    if let Some(max) = limits.max_registers {
        if f.registers > max {
            let mut msg = string_of("function ");
            msg.append(f.name.as_str());
            msg.append(" uses ");
            push_decimal(&mut msg, f.registers);
            msg.append(" registers, max is ");
            push_decimal(&mut msg, max);
            return Err(ChronicleError::ResourceLimit(msg));
        }
    }
    Ok(())
}

} // verus!

verus! {

spec fn apply_pre(s: VmV, fi: usize, pc: usize, regs: Seq<ValueV>) -> bool {
    &&& module_wf(s.module)
    &&& fi < s.module.functions.len()
    &&& pc < s.module.functions[fi as int].code.len()
    &&& regs.len() == s.module.functions[fi as int].registers
}

spec fn applied(
    s: VmV,
    depth: usize,
    fi: usize,
    pc: usize,
    regs0: Seq<ValueV>,
    e0: TraceEventV,
    o: Outcome,
    idx: usize,
    e1: TraceEventV,
    regs1: Seq<ValueV>,
) -> bool {
    let (eff, i) = apply(s, depth as nat, s.module.functions[fi as int], regs0, pc, e0);
    outcome_is(o, eff, e1, regs1) && idx == i
}

proof fn lemma_instr_wf(s: VmV, fi: usize, pc: usize)
    requires
        module_wf(s.module),
        fi < s.module.functions.len(),
        pc < s.module.functions[fi as int].code.len(),
    ensures
        instr_wf(s.module, s.module.functions[fi as int], s.module.functions[fi as int].code[pc as int]),
{
    assert(fn_wf(s.module, s.module.functions[fi as int]));
}

impl Vm {
    proof fn lemma_function_view(&self, fi: usize)
        requires
            fi < self.module.functions.len(),
        ensures
            self@.module.functions[fi as int] == self.module.functions@[fi as int]@,
            self@.module.functions.len() == self.module.functions.len(),
    {
        reveal_view(self);
    }

    fn apply_arith(
        &self,
        depth: usize,
        fi: usize,
        pc: usize,
        op: ArithOp,
        dst: usize,
        lhs: usize,
        rhs: usize,
        regs: &mut Vec<Value>,
        event: &mut TraceEvent,
    ) -> (r: (Outcome, usize))
        requires
            apply_pre(self@, fi, pc, values_view(old(regs)@)),
            old(regs).len() == values_view(old(regs)@).len(),
            dst < old(regs).len() && lhs < old(regs).len() && rhs < old(regs).len(),
            match self@.module.functions[fi as int].code[pc as int] {
                InstructionV::Add { dst: d, lhs: l, rhs: r } => op == ArithOp::Add && d == dst && l == lhs && r == rhs,
                InstructionV::Sub { dst: d, lhs: l, rhs: r } => op == ArithOp::Sub && d == dst && l == lhs && r == rhs,
                InstructionV::Mul { dst: d, lhs: l, rhs: r } => op == ArithOp::Mul && d == dst && l == lhs && r == rhs,
                InstructionV::Div { dst: d, lhs: l, rhs: r } => op == ArithOp::Div && d == dst && l == lhs && r == rhs,
                _ => false,
            },
        ensures
            applied(self@, depth, fi, pc, values_view(old(regs)@), old(event)@, r.0, r.1, final(event)@, values_view(final(regs)@)),
            final(regs).len() == old(regs).len(),
            !(r.0 is Next) ==> final(regs)@ == old(regs)@,
    {
        proof {
            reveal(apply);
        }
        let a = read_reg(regs, lhs);
        let b = read_reg(regs, rhs);
        let idx = self.replay_capability_index;
        let code_len = self.module.functions[fi].code.len();
        proof {
            reveal_view(self);
            self.lemma_function_view(fi);
            assert(self.module.functions@[fi as int].code@.len() == self@.module.functions[fi as int].code.len());
        }
        assert(pc < code_len);
        match arith_exec(op, &a, &b) {
            NumOut::Value(v) => {
                set_reg(regs, event, dst, v);
                (Outcome::Next(pc + 1), idx)
            },
            NumOut::Ask(x, y) => (Outcome::Wait(dst, HostRequest::Arith { op, lhs: x, rhs: y }, Vec::new()), idx),
            NumOut::Fail(e) => (Outcome::Fail(e), idx),
        }
    }

    proof fn lemma_instr_view(&self, fi: usize, pc: usize)
        requires
            fi < self.module.functions.len(),
            pc < self.module.functions@[fi as int].code.len(),
        ensures
            self@.module.functions[fi as int] == self.module.functions@[fi as int]@,
            self@.module.functions[fi as int].code[pc as int] == self.module.functions@[fi as int].code@[pc as int]@,
            self@.module.functions[fi as int].code.len() == self.module.functions@[fi as int].code.len(),
            self@.module.functions.len() == self.module.functions.len(),
            self@.module.constants == values_view(self.module.constants@),
            self@.replay_index == self.replay_capability_index,
            self@.live == self.live,
            self@.limits == self.limits,
            self@.capabilities == table_view(self.capabilities@),
            self@.replay == replay_view(self.replay_capabilities@),
    {
        reveal_view(self);
    }

    fn apply_less(
        &self,
        depth: usize,
        fi: usize,
        pc: usize,
        dst: usize,
        lhs: usize,
        rhs: usize,
        regs: &mut Vec<Value>,
        event: &mut TraceEvent,
    ) -> (r: (Outcome, usize))
        requires
            apply_pre(self@, fi, pc, values_view(old(regs)@)),
            old(regs).len() == values_view(old(regs)@).len(),
            dst < old(regs).len() && lhs < old(regs).len() && rhs < old(regs).len(),
            self@.module.functions[fi as int].code[pc as int] == (InstructionV::Lt { dst, lhs, rhs }),
        ensures
            applied(self@, depth, fi, pc, values_view(old(regs)@), old(event)@, r.0, r.1, final(event)@, values_view(final(regs)@)),
            final(regs).len() == old(regs).len(),
            !(r.0 is Next) ==> final(regs)@ == old(regs)@,
    {
        proof {
            reveal(apply);
        }
        let a = read_reg(regs, lhs);
        let b = read_reg(regs, rhs);
        let idx = self.replay_capability_index;
        let code_len = self.module.functions[fi].code.len();
        proof {
            reveal_view(self);
            self.lemma_function_view(fi);
            assert(self.module.functions@[fi as int].code@.len() == self@.module.functions[fi as int].code.len());
        }
        assert(pc < code_len);
        match less_exec(&a, &b) {
            NumOut::Value(v) => {
                set_reg(regs, event, dst, v);
                (Outcome::Next(pc + 1), idx)
            },
            NumOut::Ask(x, y) => (Outcome::Wait(dst, HostRequest::Less { lhs: x, rhs: y }, Vec::new()), idx),
            NumOut::Fail(e) => (Outcome::Fail(e), idx),
        }
    }

    fn apply_call(
        &self,
        depth: usize,
        fi: usize,
        pc: usize,
        dst: usize,
        function: &String,
        args: &Vec<usize>,
        regs: &mut Vec<Value>,
        event: &mut TraceEvent,
    ) -> (r: (Outcome, usize))
        requires
            apply_pre(self@, fi, pc, values_view(old(regs)@)),
            old(regs).len() == values_view(old(regs)@).len(),
            forall|i: int| 0 <= i < args.len() ==> #[trigger] args@[i] < old(regs).len(),
            self@.module.functions[fi as int].code[pc as int] == (InstructionV::Call { dst, function: function@, args: args@ }),
        ensures
            applied(self@, depth, fi, pc, values_view(old(regs)@), old(event)@, r.0, r.1, final(event)@, values_view(final(regs)@)),
            final(regs).len() == old(regs).len(),
            !(r.0 is Next) ==> final(regs)@ == old(regs)@,
    {
        proof {
            reveal(apply);
        }
        let idx = self.replay_capability_index;
        proof {
            reveal_view(self);
        }
        match self.module.function_index(function.as_str()) {
            None => (Outcome::Fail(runtime_error(concat2("missing callee ", function.as_str()))), idx),
            Some(ci) => {
                proof {
                    crate::bytecode::lemma_find_function(self@.module.functions, function@);
                    self.lemma_function_view(ci);
                }
                match enter_check_exec(&self.limits, depth, &self.module.functions[ci]) {
                    Err(e) => (Outcome::Fail(e), idx),
                    Ok(()) => {
                        let a = read_regs_exec(regs, args);
                        (Outcome::Enter(dst, ci, a), idx)
                    },
                }
            },
        }
    }

    fn apply_cap(
        &self,
        depth: usize,
        fi: usize,
        pc: usize,
        dst: usize,
        capability: &String,
        args: &Vec<usize>,
        regs: &mut Vec<Value>,
        event: &mut TraceEvent,
    ) -> (r: (Outcome, usize))
        requires
            apply_pre(self@, fi, pc, values_view(old(regs)@)),
            old(regs).len() == values_view(old(regs)@).len(),
            dst < old(regs).len(),
            forall|i: int| 0 <= i < args.len() ==> #[trigger] args@[i] < old(regs).len(),
            self@.module.functions[fi as int].code[pc as int] == (InstructionV::CapCall {
                dst,
                capability: capability@,
                args: args@,
            }),
        ensures
            applied(self@, depth, fi, pc, values_view(old(regs)@), old(event)@, r.0, r.1, final(event)@, values_view(final(regs)@)),
            final(regs).len() == old(regs).len(),
            !(r.0 is Next) ==> final(regs)@ == old(regs)@,
    {
        proof {
            reveal(apply);
        }
        let cargs = read_regs_exec(regs, args);
        let idx = self.replay_capability_index;
        let code_len = self.module.functions[fi].code.len();
        proof {
            reveal_view(self);
            self.lemma_function_view(fi);
            assert(self.module.functions@[fi as int].code@.len() == self@.module.functions[fi as int].code.len());
        }
        assert(pc < code_len);
        if self.live {
            match lookup_exec(&self.capabilities, capability) {
                Some(k) => match &self.capabilities[k].1 {
                    CapabilityDecision::Grant => {
                        let req = capability_request_exec(capability, &cargs);
                        (Outcome::Wait(dst, req, cargs), idx)
                    },
                    CapabilityDecision::Mock(v) => {
                        let result = clone_value(v);
                        let value = clone_value(v);
                        event.capability = Some(
                            CapabilityTrace {
                                id: capability.clone(),
                                decision: CapabilityTraceDecision::Mocked,
                                args: cargs,
                                result,
                            },
                        );
                        set_reg(regs, event, dst, value);
                        (Outcome::Next(pc + 1), idx)
                    },
                    CapabilityDecision::Deny => (
                        Outcome::Fail(
                            ChronicleError::Policy(
                                PolicyError::new(
                                    PolicyErrorKind::DeniedCapability,
                                    capability.as_str(),
                                    "capability unavailable at runtime",
                                ),
                            ),
                        ),
                        idx,
                    ),
                },
                None => (
                    Outcome::Fail(
                        ChronicleError::Policy(
                            PolicyError::new(
                                PolicyErrorKind::DeniedCapability,
                                capability.as_str(),
                                "capability unavailable at runtime",
                            ),
                        ),
                    ),
                    idx,
                ),
            }
        } else if idx >= self.replay_capabilities.len() {
            (
                Outcome::Fail(
                    ChronicleError::Replay(
                        Box::new(
                            ReplayError { message: concat2("missing recorded capability ", capability.as_str()), diff: None },
                        ),
                    ),
                ),
                idx,
            )
        } else {
            let rec = &self.replay_capabilities[idx];
            assert(self@.replay[idx as int] == rec@);
            if !str_eq(rec.id.as_str(), capability.as_str()) || !value_lists_equal(&rec.args, &cargs) {
                (
                    Outcome::Fail(
                        ChronicleError::Replay(
                            Box::new(
                                ReplayError {
                                    message: concat2("capability call mismatch for ", capability.as_str()),
                                    diff: None,
                                },
                            ),
                        ),
                    ),
                    idx + 1,
                )
            } else {
                let result = clone_value(&rec.result);
                let value = clone_value(&rec.result);
                event.capability = Some(
                    CapabilityTrace { id: capability.clone(), decision: rec.decision, args: cargs, result },
                );
                set_reg(regs, event, dst, value);
                (Outcome::Next(pc + 1), idx + 1)
            }
        }
    }

    fn apply_array(
        &self,
        depth: usize,
        fi: usize,
        pc: usize,
        regs: &mut Vec<Value>,
        event: &mut TraceEvent,
    ) -> (r: (Outcome, usize))
        requires
            apply_pre(self@, fi, pc, values_view(old(regs)@)),
            old(regs).len() == values_view(old(regs)@).len(),
            instr_wf(self@.module, self@.module.functions[fi as int], self@.module.functions[fi as int].code[pc as int]),
            self@.module.functions[fi as int].code[pc as int] is ArrayNew || self@.module.functions[fi as int].code[
                pc as int] is ArrayGet || self@.module.functions[fi as int].code[pc as int] is ArraySet,
        ensures
            applied(self@, depth, fi, pc, values_view(old(regs)@), old(event)@, r.0, r.1, final(event)@, values_view(final(regs)@)),
            final(regs).len() == old(regs).len(),
            !(r.0 is Next) ==> final(regs)@ == old(regs)@,
    {
        proof {
            reveal(apply);
        }
        let idx = self.replay_capability_index;
        let code_len = self.module.functions[fi].code.len();
        proof {
            reveal_view(self);
            self.lemma_instr_view(fi, pc);
            lemma_values_view(regs@);
        }
        assert(pc < code_len);
        match &self.module.functions[fi].code[pc] {
            Instruction::ArrayNew { dst, items } => {
                if let Some(max) = self.limits.max_array_items {
                    if items.len() > max {
                        let mut msg = string_of("array_new requested ");
                        push_decimal(&mut msg, items.len());
                        msg.append(" items, max is ");
                        push_decimal(&mut msg, max);
                        return (Outcome::Fail(ChronicleError::ResourceLimit(msg)), idx);
                    }
                }
                let vals = read_regs_exec(regs, items);
                set_reg(regs, event, *dst, Value::Array(vals));
                (Outcome::Next(pc + 1), idx)
            },
            Instruction::ArrayGet { dst, array, index } => {
                let got: Result<Value, ChronicleError> = match &regs[*array] {
                    Value::Array(items) => match index_exec(&regs[*index]) {
                        None => Err(runtime_error(string_of("array index must be a non-negative i64"))),
                        Some(i) => {
                            proof {
                                lemma_values_view(items@);
                            }
                            if i < items.len() {
                                Ok(clone_value(&items[i]))
                            } else {
                                let mut msg = string_of("array index ");
                                push_decimal(&mut msg, i);
                                msg.append(" out of bounds");
                                Err(runtime_error(msg))
                            }
                        },
                    },
                    _ => Err(runtime_error(string_of("array_get target is not an array"))),
                };
                match got {
                    Ok(v) => {
                        set_reg(regs, event, *dst, v);
                        (Outcome::Next(pc + 1), idx)
                    },
                    Err(e) => (Outcome::Fail(e), idx),
                }
            },
            Instruction::ArraySet { array, index, value } => {
                match index_exec(&regs[*index]) {
                    None => (
                        Outcome::Fail(runtime_error(string_of("array index must be a non-negative i64"))),
                        idx,
                    ),
                    Some(i) => {
                        let new_value = clone_value(&regs[*value]);
                        let updated: Result<Vec<Value>, ChronicleError> = match &regs[*array] {
                            Value::Array(items) => {
                                proof {
                                    lemma_values_view(items@);
                                }
                                if i < items.len() {
                                    let mut copy = clone_values(items);
                                    proof {
                                        lemma_values_view_update(copy@, i as int, new_value);
                                        lemma_values_view_ext(copy@, items@);
                                    }
                                    copy.set(i, new_value);
                                    Ok(copy)
                                } else {
                                    let mut msg = string_of("array index ");
                                    push_decimal(&mut msg, i);
                                    msg.append(" out of bounds");
                                    Err(runtime_error(msg))
                                }
                            },
                            _ => Err(runtime_error(string_of("array_set target is not an array"))),
                        };
                        match updated {
                            Ok(items) => {
                                set_reg(regs, event, *array, Value::Array(items));
                                (Outcome::Next(pc + 1), idx)
                            },
                            Err(e) => (Outcome::Fail(e), idx),
                        }
                    },
                }
            },
            _ => {
                assert(false);
                (Outcome::Next(pc), idx)
            },
        }
    }

    /// Runs instruction `pc` of function `fi`, `depth` frames deep, on `regs`, recording
    /// into `event`.
    fn apply_instr(&self, depth: usize, fi: usize, pc: usize, regs: &mut Vec<Value>, event: &mut TraceEvent) -> (r: (
        Outcome,
        usize,
    ))
        requires
            apply_pre(self@, fi, pc, values_view(old(regs)@)),
        ensures
            applied(self@, depth, fi, pc, values_view(old(regs)@), old(event)@, r.0, r.1, final(event)@, values_view(final(regs)@)),
            final(regs).len() == old(regs).len(),
            !(r.0 is Next) ==> final(regs)@ == old(regs)@,
    {
        proof {
            reveal(apply);
        }
        let idx = self.replay_capability_index;
        let code_len = self.module.functions[fi].code.len();
        proof {
            reveal_view(self);
            self.lemma_instr_view(fi, pc);
            lemma_values_view(regs@);
            lemma_instr_wf(self@, fi, pc);
        }
        assert(pc < code_len);
        match &self.module.functions[fi].code[pc] {
            Instruction::Const { dst, constant } => {
                proof {
                    lemma_values_view(self.module.constants@);
                }
                let v = clone_value(&self.module.constants[*constant]);
                set_reg(regs, event, *dst, v);
                (Outcome::Next(pc + 1), idx)
            },
            Instruction::Move { dst, src } => {
                let v = read_reg(regs, *src);
                set_reg(regs, event, *dst, v);
                (Outcome::Next(pc + 1), idx)
            },
            Instruction::Add { dst, lhs, rhs } => self.apply_arith(depth, fi, pc, ArithOp::Add, *dst, *lhs, *rhs, regs, event),
            Instruction::Sub { dst, lhs, rhs } => self.apply_arith(depth, fi, pc, ArithOp::Sub, *dst, *lhs, *rhs, regs, event),
            Instruction::Mul { dst, lhs, rhs } => self.apply_arith(depth, fi, pc, ArithOp::Mul, *dst, *lhs, *rhs, regs, event),
            Instruction::Div { dst, lhs, rhs } => self.apply_arith(depth, fi, pc, ArithOp::Div, *dst, *lhs, *rhs, regs, event),
            Instruction::Eq { dst, lhs, rhs } => {
                let b = value_equal(&regs[*lhs], &regs[*rhs]);
                set_reg(regs, event, *dst, Value::Bool(b));
                (Outcome::Next(pc + 1), idx)
            },
            Instruction::Lt { dst, lhs, rhs } => self.apply_less(depth, fi, pc, *dst, *lhs, *rhs, regs, event),
            Instruction::Jump { target } => (Outcome::Next(*target), idx),
            Instruction::JumpIf { cond, target } => {
                if regs[*cond].truthy() {
                    (Outcome::Next(*target), idx)
                } else {
                    (Outcome::Next(pc + 1), idx)
                }
            },
            Instruction::Call { dst, function, args } => self.apply_call(depth, fi, pc, *dst, function, args, regs, event),
            Instruction::Ret { src } => (Outcome::Return(read_reg(regs, *src)), idx),
            Instruction::CapCall { dst, capability, args } => self.apply_cap(
                depth,
                fi,
                pc,
                *dst,
                capability,
                args,
                regs,
                event,
            ),
            Instruction::ArrayNew { .. } | Instruction::ArrayGet { .. } | Instruction::ArraySet { .. } => self.apply_array(
                depth,
                fi,
                pc,
                regs,
                event,
            ),
        }
    }

    /// Whether the machine's state is well formed (see [`state_wf`]).
    pub closed spec fn wf(&self) -> bool {
        state_wf(self@)
    }

    /// Ends the run with `err`, the innermost frame already removed: each remaining frame's
    /// pending call instruction fails with the same error, innermost first.
    fn finish_failed(&mut self, err: ChronicleError) -> (r: Step)
        requires
            module_wf(old(self)@.module),
            forall|i: int| 0 <= i < old(self)@.frames.len() ==> caller_wf(old(self)@.module, #[trigger] old(self)@.frames[i]),
        ensures
            (final(self)@, r@) == finish_failed(old(self)@, err@),
            final(self).wf(),
    {
        proof {
            reveal_view(self);
        }
        let ghost fs0 = old(self)@.frames;
        let ghost ev0 = old(self)@.events;
        let text = err.to_text();
        while self.frames.len() > 0
            invariant
                self.module == old(self).module,
                self.capabilities == old(self).capabilities,
                self.replay_capabilities == old(self).replay_capabilities,
                self.replay_capability_index == old(self).replay_capability_index,
                self.limits == old(self).limits,
                self.instruction_count == old(self).instruction_count,
                self.live == old(self).live,
                self.waiting == old(self).waiting,
                text@ == error_text(err@),
                forall|i: int| 0 <= i < frames_view(self.frames@).len() ==> caller_wf(self@.module, #[trigger] frames_view(self.frames@)[i]),
                events_view(self.events@) + unwind_events(frames_view(self.frames@), err@) == ev0 + unwind_events(fs0, err@),
                frames_view(self.frames@).len() == self.frames.len(),
            decreases self.frames.len(),
        {
            proof {
                reveal_view(self);
            }
            let ghost fsv = frames_view(self.frames@);
            let ghost evv = events_view(self.events@);
            let f = self.frames.pop().unwrap();
            assert(fsv.last() == f@);
            assert(frames_view(self.frames@) =~= fsv.drop_last());
            assert(caller_wf(self@.module, fsv[fsv.len() - 1]));
            match f.call {
                Some((mut e, _dst)) => {
                    e.error = Some(text.clone());
                    seal_event(&mut e);
                    assert(e@ == failed(fsv.last().call->Some_0.0, err@));
                    self.events.push(e);
                    assert(events_view(self.events@) =~= evv.push(failed(fsv.last().call->Some_0.0, err@)));
                    assert(unwind_events(fsv, err@) == seq![failed(fsv.last().call->Some_0.0, err@)] + unwind_events(fsv.drop_last(), err@));
                    assert(events_view(self.events@) + unwind_events(frames_view(self.frames@), err@) =~= evv + unwind_events(fsv, err@));
                },
                None => {
                    assert(false);
                },
            }
        }
        self.waiting = None;
        proof {
            reveal_view(self);
            assert(frames_view(self.frames@) =~= Seq::<FrameV>::empty());
            assert(unwind_events(Seq::<FrameV>::empty(), err@) =~= Seq::<TraceEventV>::empty());
            assert(events_view(self.events@) =~= ev0 + unwind_events(fs0, err@));
        }
        Step::Finished(Err(err))
    }

    /// The innermost frame (already removed) fails with `err`, its instruction recorded by
    /// `event`.
    fn fail_popped(&mut self, event: TraceEvent, err: ChronicleError) -> (r: Step)
        requires
            module_wf(old(self)@.module),
            forall|i: int| 0 <= i < old(self)@.frames.len() ==> caller_wf(old(self)@.module, #[trigger] old(self)@.frames[i]),
        ensures
            (final(self)@, r@) == finish_failed(
                VmV { events: old(self)@.events.push(failed(event@, err@)), ..old(self)@ },
                err@,
            ),
            final(self).wf(),
    {
        let mut e = event;
        e.error = Some(err.to_text());
        seal_event(&mut e);
        proof {
            reveal_view(self);
        }
        let ghost before = events_view(self.events@);
        self.events.push(e);
        proof {
            reveal_view(self);
            assert(events_view(self.events@) =~= before.push(failed(event@, err@)));
        }
        self.finish_failed(err)
    }

    /// The innermost frame (already removed) returned `v`.
    fn deliver(&mut self, v: Value) -> (r: Step)
        requires
            old(self).waiting is None,
            module_wf(old(self)@.module),
            forall|i: int| 0 <= i < old(self)@.frames.len() ==> caller_wf(old(self)@.module, #[trigger] old(self)@.frames[i]),
            forall|i: int| 0 <= i < old(self)@.frames.len() ==> crate::machine::frame_wf(old(self)@.module, #[trigger] old(self)@.frames[i]),
        ensures
            (final(self)@, r@) == crate::machine::deliver(old(self)@, v@),
            final(self).wf(),
    {
        proof {
            reveal_view(self);
        }
        if self.frames.len() == 0 {
            return Step::Finished(Ok(v));
        }
        let ghost fsv = frames_view(self.frames@);
        let ghost evv = events_view(self.events@);
        let ghost m = self@.module;
        assert(fsv == old(self)@.frames);
        assert(caller_wf(m, old(self)@.frames[fsv.len() - 1]));
        assert(crate::machine::frame_wf(m, old(self)@.frames[fsv.len() - 1]));
        let mut caller = self.frames.pop().unwrap();
        assert(fsv.last() == caller@);
        assert(caller_wf(m, fsv[fsv.len() - 1]));
        assert(crate::machine::frame_wf(m, fsv[fsv.len() - 1]));
        let code_len = self.module.functions[caller.function].code.len();
        proof {
            self.lemma_function_view(caller.function);
            assert(self.module.functions@[caller.function as int].code@.len() == self@.module.functions[caller.function as int].code.len());
        }
        assert(caller.pc < code_len);
        let call = caller.call.take();
        match call {
            Some((mut e, dst)) => {
                proof {
                    lemma_values_view(caller.registers@);
                }
                set_reg(&mut caller.registers, &mut e, dst, v);
                seal_event(&mut e);
                self.events.push(e);
                caller.pc = caller.pc + 1;
                self.frames.push(caller);
                proof {
                    reveal_view(self);
                    assert(frames_view(self.frames@) =~= fsv.drop_last().push(caller@));
                    assert(events_view(self.events@) =~= evv.push(e@));
                    lemma_values_view(caller.registers@);
                }
                Step::Running
            },
            None => {
                assert(false);
                Step::Idle
            },
        }
    }

    fn new_frame_exec(&self, ci: usize, args: Vec<Value>) -> (r: Frame)
        requires
            ci < self@.module.functions.len(),
        ensures
            r@ == crate::machine::new_frame(self@.module, ci, values_view(args@)),
            r.registers.len() == self@.module.functions[ci as int].registers,
    {
        proof {
            reveal_view(self);
            self.lemma_function_view(ci);
            lemma_values_view(args@);
        }
        let n = self.module.functions[ci].registers;
        let mut regs: Vec<Value> = Vec::new();
        let mut i: usize = 0;
        while i < n
            invariant
                i <= n,
                regs.len() == i,
                values_view(args@).len() == args.len(),
                forall|j: int| 0 <= j < args.len() ==> #[trigger] values_view(args@)[j] == value_view(args@[j]),
                forall|j: int| 0 <= j < i ==> value_view(#[trigger] regs@[j]) == (if j < args.len() {
                    values_view(args@)[j]
                } else {
                    ValueV::Nil
                }),
            decreases n - i,
        {
            if i < args.len() {
                regs.push(clone_value(&args[i]));
            } else {
                regs.push(Value::Nil);
            }
            i = i + 1;
        }
        proof {
            lemma_values_view(regs@);
            assert(values_view(regs@) =~= crate::machine::entry_registers(self@.module.functions[ci as int], values_view(args@)));
        }
        Frame { function: ci, pc: 0, registers: regs, call: None }
    }

    /// Completes the instruction that the innermost frame `top` (already removed) ran.
    fn conclude(&mut self, top: Frame, event: TraceEvent, out: Outcome, Ghost(top0): Ghost<FrameV>) -> (r: Step)
        requires
            old(self).waiting is None,
            module_wf(old(self)@.module),
            forall|i: int| 0 <= i < old(self)@.frames.len() ==> caller_wf(old(self)@.module, #[trigger] old(self)@.frames[i]),
            forall|i: int| 0 <= i < old(self)@.frames.len() ==> crate::machine::frame_wf(old(self)@.module, #[trigger] old(self)@.frames[i]),
            top0.function == top.function,
            top0.pc == top.pc,
            top0.call is None,
            top.call is None,
            top.function < old(self)@.module.functions.len(),
            top.pc < old(self)@.module.functions[top.function as int].code.len(),
            top0.registers.len() == old(self)@.module.functions[top.function as int].registers,
            !(out is Next) ==> values_view(top.registers@) == top0.registers,
            effect_wf(
                old(self)@.module,
                old(self)@.module.functions[top.function as int],
                top0.registers,
                effect_of(out, event@, values_view(top.registers@)),
            ),
        ensures
            (final(self)@, r@) == conclude(
                VmV { frames: old(self)@.frames.push(top0), ..old(self)@ },
                top0,
                effect_of(out, event@, values_view(top.registers@)),
            ),
            final(self).wf(),
    {
        proof {
            reveal(conclude);
            reveal(crate::machine::resume);
        }
        let ghost s0 = self@;
        let mut top = top;
        let mut event = event;
        proof {
            reveal_view(self);
            lemma_values_view(top.registers@);
        }
        match out {
            Outcome::Next(n) => {
                seal_event(&mut event);
                let ghost evv = events_view(self.events@);
                self.events.push(event);
                top.pc = n;
                self.frames.push(top);
                proof {
                    reveal_view(self);
                    assert(events_view(self.events@) =~= evv.push(event@));
                    assert(frames_view(self.frames@) =~= s0.frames.push(top0).drop_last().push(top@));
                    assert forall|i: int| 0 <= i < self@.frames.len() - 1 implies caller_wf(self@.module, #[trigger] self@.frames[i]) by {
                        assert(self@.frames[i] == s0.frames[i]);
                    }
                    assert forall|i: int| 0 <= i < self@.frames.len() implies crate::machine::frame_wf(self@.module, #[trigger] self@.frames[i]) by {
                        if i < self@.frames.len() - 1 {
                            assert(self@.frames[i] == s0.frames[i]);
                        }
                    }
                }
                Step::Running
            },
            Outcome::Return(v) => {
                seal_event(&mut event);
                let ghost evv = events_view(self.events@);
                self.events.push(event);
                proof {
                    reveal_view(self);
                    assert(events_view(self.events@) =~= evv.push(event@));
                    assert(s0.frames.push(top0).drop_last() =~= s0.frames);
                }
                self.deliver(v)
            },
            Outcome::Fail(err) => {
                proof {
                    assert(s0.frames.push(top0).drop_last() =~= s0.frames);
                }
                self.fail_popped(event, err)
            },
            Outcome::Wait(dst, req, args) => {
                let r = clone_request(&req);
                self.frames.push(top);
                self.waiting = Some(Waiting { event, dst, request: req, args });
                proof {
                    reveal_view(self);
                    assert(frames_view(self.frames@) =~= s0.frames.push(top0));
                    assert forall|i: int| 0 <= i < self@.frames.len() - 1 implies caller_wf(self@.module, #[trigger] self@.frames[i]) by {
                        assert(self@.frames[i] == s0.frames[i]);
                    }
                    assert forall|i: int| 0 <= i < self@.frames.len() implies crate::machine::frame_wf(self@.module, #[trigger] self@.frames[i]) by {
                        if i < self@.frames.len() - 1 {
                            assert(self@.frames[i] == s0.frames[i]);
                        }
                    }
                }
                Step::Host(r)
            },
            Outcome::Enter(dst, ci, args) => {
                let frame = self.new_frame_exec(ci, args);
                top.call = Some((event, dst));
                self.frames.push(top);
                self.frames.push(frame);
                proof {
                    reveal_view(self);
                    assert(frames_view(self.frames@) =~= s0.frames.push(top0).drop_last().push(top@).push(frame@));
                    assert forall|i: int| 0 <= i < self@.frames.len() - 1 implies caller_wf(self@.module, #[trigger] self@.frames[i]) by {
                        if i < self@.frames.len() - 2 {
                            assert(self@.frames[i] == s0.frames[i]);
                        }
                    }
                    assert forall|i: int| 0 <= i < self@.frames.len() implies crate::machine::frame_wf(self@.module, #[trigger] self@.frames[i]) by {
                        if i < self@.frames.len() - 2 {
                            assert(self@.frames[i] == s0.frames[i]);
                        }
                    }
                }
                Step::Running
            },
        }
    }

    /// Runs one instruction of the run in progress, or reports that the machine waits for
    /// the host, has no run, or has just finished.
    pub fn step(&mut self) -> (r: Step)
        requires
            old(self).wf(),
        ensures
            (final(self)@, r@) == crate::machine::step(old(self)@),
            final(self).wf(),
    {
        proof {
            reveal(crate::machine::step);
            reveal(conclude);
        }
        proof {
            reveal_view(self);
        }
        if let Some(w) = &self.waiting {
            return Step::Host(clone_request(&w.request));
        }
        if self.frames.len() == 0 {
            return Step::Idle;
        }
        let ghost s = self@;
        let depth = self.frames.len();
        let top = self.frames.pop().unwrap();
        let ghost top0 = top@;
        assert(s.frames.last() == top@);
        assert(crate::machine::frame_wf(s.module, s.frames[s.frames.len() - 1]));
        proof {
            reveal_view(self);
            assert(frames_view(self.frames@) =~= s.frames.drop_last());
            assert forall|i: int| 0 <= i < self@.frames.len() implies caller_wf(self@.module, #[trigger] self@.frames[i]) by {
                assert(self@.frames[i] == s.frames[i]);
            }
            assert forall|i: int| 0 <= i < self@.frames.len() implies crate::machine::frame_wf(self@.module, #[trigger] self@.frames[i]) by {
                assert(self@.frames[i] == s.frames[i]);
            }
            self.lemma_function_view(top.function);
            lemma_values_view(top.registers@);
        }
        let fi = top.function;
        let pc = top.pc;
        let code_len = self.module.functions[fi].code.len();
        if pc >= code_len {
            let msg = concat3("function ", self.module.functions[fi].name.as_str(), " ended without ret");
            return self.finish_failed(runtime_error(msg));
        }
        let event = make_event(&self.module.functions[fi], pc);
        match count_check_exec(&self.limits, self.instruction_count) {
            Err(err) => {
                return self.fail_popped(event, err);
            },
            Ok(c) => {
                self.instruction_count = c;
            },
        }
        let mut top = top;
        let mut event = event;
        let ghost s1 = VmV { count: self.instruction_count, ..s };
        let ghost e0 = event@;
        let ghost regs0 = values_view(top.registers@);
        proof {
            reveal_view(self);
            lemma_apply_ignores_frames(self@, s1, depth as nat, s.module.functions[fi as int], regs0, pc, e0);
            lemma_apply_wf(s1, depth as nat, fi, regs0, pc, e0);
        }
        let (out, idx) = self.apply_instr(depth, fi, pc, &mut top.registers, &mut event);
        self.replay_capability_index = idx;
        proof {
            reveal_view(self);
            assert(self@.frames.push(top0) =~= s.frames);
        }
        self.conclude(top, event, out, Ghost(top0))
    }

    /// Hands the host's reply to the suspended instruction and completes it.
    pub fn resume(&mut self, reply: HostReply) -> (r: Step)
        requires
            old(self).wf(),
        ensures
            (final(self)@, r@) == crate::machine::resume(old(self)@, reply@),
            final(self).wf(),
    {
        proof {
            reveal(conclude);
            reveal(crate::machine::resume);
        }
        proof {
            reveal_view(self);
        }
        if self.waiting.is_none() {
            if self.frames.len() == 0 {
                return Step::Idle;
            } else {
                return Step::Running;
            }
        }
        let ghost s = self@;
        let w = self.waiting.take().unwrap();
        let value = reply_value_exec(&w.request, reply);
        let top = self.frames.pop().unwrap();
        proof {
            reveal_view(self);
            assert(s.frames.last() == top@);
            assert(crate::machine::frame_wf(s.module, s.frames[s.frames.len() - 1]));
            assert(frames_view(self.frames@) =~= s.frames.drop_last());
            assert forall|i: int| 0 <= i < self@.frames.len() implies caller_wf(self@.module, #[trigger] self@.frames[i]) by {
                assert(self@.frames[i] == s.frames[i]);
            }
            assert forall|i: int| 0 <= i < self@.frames.len() implies crate::machine::frame_wf(self@.module, #[trigger] self@.frames[i]) by {
                assert(self@.frames[i] == s.frames[i]);
            }
            self.lemma_function_view(top.function);
            lemma_values_view(top.registers@);
        }
        match value {
            Ok(v) => {
                let mut top = top;
                let mut event = w.event;
                match request_capability_exec(&w.request) {
                    Some(id) => {
                        event.capability = Some(
                            CapabilityTrace {
                                id,
                                decision: CapabilityTraceDecision::Granted,
                                args: w.args,
                                result: clone_value(&v),
                            },
                        );
                    },
                    None => {},
                }
                let code_len = self.module.functions[top.function].code.len();
                proof {
                    assert(self.module.functions@[top.function as int].code@.len() == self@.module.functions[top.function as int].code.len());
                }
                assert(top.pc < code_len);
                set_reg(&mut top.registers, &mut event, w.dst, v);
                seal_event(&mut event);
                let ghost evv = events_view(self.events@);
                self.events.push(event);
                top.pc = top.pc + 1;
                self.frames.push(top);
                proof {
                    reveal_view(self);
                    lemma_values_view(top.registers@);
                    assert(events_view(self.events@) =~= evv.push(event@));
                    assert(frames_view(self.frames@) =~= s.frames.drop_last().push(top@));
                    assert forall|i: int| 0 <= i < self@.frames.len() - 1 implies caller_wf(self@.module, #[trigger] self@.frames[i]) by {
                        assert(self@.frames[i] == s.frames[i]);
                    }
                    assert forall|i: int| 0 <= i < self@.frames.len() implies crate::machine::frame_wf(self@.module, #[trigger] self@.frames[i]) by {
                        if i < self@.frames.len() - 1 {
                            assert(self@.frames[i] == s.frames[i]);
                        }
                    }
                }
                Step::Running
            },
            Err(err) => self.fail_popped(w.event, err),
        }
    }

    /// Starts a run at the function exported as `entry`, with live capabilities or, when
    /// `live` is false, with the recorded ones. Events and the instruction count start
    /// afresh.
    pub fn start(&mut self, entry: &str, live: bool) -> (r: Result<(), ChronicleError>)
        requires
            old(self).wf(),
        ensures
            final(self)@ == crate::machine::start(old(self)@, entry@, live).0,
            match (r, crate::machine::start(old(self)@, entry@, live).1) {
                (Ok(()), Ok(())) => true,
                (Err(a), Err(b)) => a@ == b,
                _ => false,
            },
            final(self).wf(),
    {
        proof {
            reveal_view(self);
        }
        let ghost s = self@;
        self.instruction_count = 0;
        self.live = live;
        self.frames = Vec::new();
        self.events = Vec::new();
        self.waiting = None;
        proof {
            reveal_view(self);
            assert(frames_view(self.frames@) =~= Seq::<FrameV>::empty());
            assert(events_view(self.events@) =~= Seq::<TraceEventV>::empty());
        }
        match self.module.export_index(entry) {
            None => Err(runtime_error(concat2("missing entry export ", entry))),
            Some(fi) => {
                proof {
                    crate::machine::lemma_find_export_in(s.module.exports, entry@);
                    let k = choose|k: int| 0 <= k < s.module.exports.len() && (#[trigger] s.module.exports[k]).1 == fi;
                    assert(s.module.exports[k].1 < s.module.functions.len());
                    self.lemma_function_view(fi);
                }
                match enter_check_exec(&self.limits, 0, &self.module.functions[fi]) {
                    Err(e) => Err(e),
                    Ok(()) => {
                        let no_args: Vec<Value> = Vec::new();
                        proof {
                            assert(values_view(no_args@) =~= Seq::<ValueV>::empty());
                        }
                        let frame = self.new_frame_exec(fi, no_args);
                        self.frames.push(frame);
                        proof {
                            reveal_view(self);
                            assert(frames_view(self.frames@) =~= seq![frame@]);
                        }
                        Ok(())
                    },
                }
            },
        }
    }

    /// A machine for `module` under `host_policy` on the host that provides the built-in
    /// capabilities: the module must pass the verifier, and every capability it declares
    /// must be mocked, or granted and provided by that host with the declared signature.
    pub fn new(module: Module, host_policy: HostPolicy) -> (r: Result<Vm, ChronicleError>)
        requires
            host_policy.wf(),
        ensures
            match admitted(builtin_host(), module@, table_view(host_policy.decisions@)) {
                Ok(t) => r matches Ok(vm) && vm@ == fresh(module@, t, Seq::empty(), true) && vm.wf(),
                Err(e) => r matches Err(x) && x@ == e,
            },
    {
        let host = HostRegistry::with_builtins();
        Vm::new_with_host(module, host_policy, &host)
    }

    /// A machine for `module` under `host_policy` on `host`: the module must pass the
    /// verifier, and every capability it declares must be mocked, or granted and registered
    /// by the host with the declared signature.
    pub fn new_with_host(module: Module, host_policy: HostPolicy, host: &HostRegistry) -> (r: Result<Vm, ChronicleError>)
        requires
            host_policy.wf(),
        ensures
            match admitted(host@, module@, table_view(host_policy.decisions@)) {
                Ok(t) => r matches Ok(vm) && vm@ == fresh(module@, t, Seq::empty(), true) && vm.wf(),
                Err(e) => r matches Err(x) && x@ == e,
            },
    {
        let checked = Verifier::verify(&module);
        if let Err(e) = checked {
            return Err(e);
        }
        proof {
            lemma_verified_module_wf(module@);
        }
        let report = host_policy.negotiate_with_host(&module, host);
        let table = match report.into_capability_table() {
            Ok(t) => t,
            Err(e) => return Err(e),
        };
        let vm = Vm {
            module,
            capabilities: table,
            replay_capabilities: Vec::new(),
            replay_capability_index: 0,
            limits: VmLimits { max_instructions: None, max_call_depth: None, max_registers: None, max_array_items: None },
            instruction_count: 0,
            live: true,
            frames: Vec::new(),
            events: Vec::new(),
            waiting: None,
        };
        proof {
            reveal_view(&vm);
            assert(frames_view(vm.frames@) =~= Seq::<FrameV>::empty());
            assert(events_view(vm.events@) =~= Seq::<TraceEventV>::empty());
            assert(replay_view(vm.replay_capabilities@) =~= Seq::<CapabilityTraceV>::empty());
        }
        Ok(vm)
    }

    /// The same machine with other limits.
    pub fn with_limits(self, limits: VmLimits) -> (r: Vm)
        requires
            self.wf(),
        ensures
            r@ == (VmV { limits, ..self@ }),
            r.wf(),
    {
        proof {
            reveal_view(&self);
        }
        let mut vm = self;
        vm.limits = limits;
        proof {
            reveal_view(&vm);
        }
        vm
    }

    /// The events recorded so far; the machine keeps none.
    pub fn take_events(&mut self) -> (r: Vec<TraceEvent>)
        requires
            old(self).wf(),
        ensures
            events_view(r@) == old(self)@.events,
            final(self)@ == (VmV { events: Seq::empty(), ..old(self)@ }),
            final(self).wf(),
    {
        proof {
            reveal_view(self);
        }
        let mut out: Vec<TraceEvent> = Vec::new();
        std::mem::swap(&mut out, &mut self.events);
        proof {
            reveal_view(self);
            assert(events_view(self.events@) =~= Seq::<TraceEventV>::empty());
        }
        out
    }

    /// The limits the machine runs under.
    pub fn limits(&self) -> (r: VmLimits)
        ensures
            r == self@.limits,
    {
        proof {
            reveal_view(self);
        }
        self.limits
    }

    /// The module the machine runs.
    pub fn module(&self) -> (r: &Module)
        ensures
            r@ == self@.module,
    {
        proof {
            reveal_view(self);
        }
        &self.module
    }

    /// A machine that replays `trace` under the limits it was recorded with: the trace's
    /// module must pass the verifier; every declared capability is granted, and capability
    /// calls are answered by the calls the trace recorded, in order.
    pub fn for_replay(trace: &Trace) -> (r: Result<Vm, ChronicleError>)
        ensures
            match verify_module(trace@.module) {
                Ok(()) => r matches Ok(vm) && vm@ == (VmV {
                    limits: trace@.limits,
                    ..fresh(
                        trace@.module,
                        all_granted(trace@.module.capabilities),
                        recorded_calls(trace@.events),
                        false,
                    )
                }) && vm.wf(),
                Err(e) => r matches Err(x) && x@ == ChronicleErrorV::Verify(e),
            },
    {
        let checked = Verifier::verify(&trace.module);
        if let Err(e) = checked {
            return Err(e);
        }
        proof {
            lemma_verified_module_wf(trace@.module);
        }
        let ghost evs = trace@.events;
        let mut calls: Vec<CapabilityTrace> = Vec::new();
        let mut i: usize = 0;
        while i < trace.events.len()
            invariant
                evs == trace@.events,
                evs.len() == trace.events.len(),
                i <= trace.events.len(),
                replay_view(calls@) == recorded_calls(evs.subrange(0, i as int)),
            decreases trace.events.len() - i,
        {
            assert(evs[i as int] == trace.events@[i as int]@);
            assert(evs.subrange(0, i + 1).drop_last() =~= evs.subrange(0, i as int));
            let ghost before = replay_view(calls@);
            match &trace.events[i].capability {
                Some(c) => {
                    calls.push(clone_capability_trace(c));
                    assert(replay_view(calls@) =~= before + seq![c@]);
                },
                None => {
                    assert(before + Seq::<CapabilityTraceV>::empty() =~= before);
                },
            }
            i = i + 1;
        }
        assert(evs.subrange(0, i as int) =~= evs);
        let mut grants: DecisionTable = Vec::new();
        let mut k: usize = 0;
        while k < trace.module.capabilities.len()
            invariant
                k <= trace.module.capabilities.len(),
                grants.len() == k,
                forall|j: int| 0 <= j < k ==> (#[trigger] grants@[j]).0@ == trace.module.capabilities@[j].id@ && grants@[j].1
                    == CapabilityDecision::Grant,
            decreases trace.module.capabilities.len() - k,
        {
            grants.push((trace.module.capabilities[k].id.clone(), CapabilityDecision::Grant));
            k = k + 1;
        }
        assert(table_view(grants@) =~= all_granted(trace@.module.capabilities));
        let vm = Vm {
            module: trace.module.clone(),
            capabilities: grants,
            replay_capabilities: calls,
            replay_capability_index: 0,
            limits: trace.limits,
            instruction_count: 0,
            live: false,
            frames: Vec::new(),
            events: Vec::new(),
            waiting: None,
        };
        proof {
            reveal_view(&vm);
            assert(frames_view(vm.frames@) =~= Seq::<FrameV>::empty());
            assert(events_view(vm.events@) =~= Seq::<TraceEventV>::empty());
        }
        Ok(vm)
    }
}

proof fn reveal_view(vm: &Vm)
    ensures
        vm@ == (VmV {
            module: vm.module@,
            capabilities: table_view(vm.capabilities@),
            replay: replay_view(vm.replay_capabilities@),
            replay_index: vm.replay_capability_index,
            limits: vm.limits,
            count: vm.instruction_count,
            live: vm.live,
            frames: frames_view(vm.frames@),
            events: events_view(vm.events@),
            waiting: waiting_view(vm.waiting),
        }),
{
}

} // verus!
