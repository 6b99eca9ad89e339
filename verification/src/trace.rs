use vstd::prelude::*;
use crate::bytecode::{Module, ModuleV, opt_string_view};
use crate::machine::VmLimits;
use crate::value::{Value, ValueV, values_view, clone_value, clone_values, lemma_values_view};

verus! {

/// A register that an instruction wrote, with the value written.
#[derive(Debug)]
pub struct RegisterChange {
    pub register: usize,
    pub value: Value,
}

pub struct RegisterChangeV {
    pub register: usize,
    pub value: ValueV,
}

impl View for RegisterChange {
    type V = RegisterChangeV;

    open spec fn view(&self) -> RegisterChangeV {
        RegisterChangeV { register: self.register, value: self.value@ }
    }
}

/// How the value of a capability call was obtained.
#[derive(Clone, Copy, Debug, PartialEq, Eq, Structural)]
pub enum CapabilityTraceDecision {
    Granted,
    Mocked,
    Replayed,
}

/// A recorded capability call: its id, how it was decided, its arguments and its result.
#[derive(Debug)]
pub struct CapabilityTrace {
    pub id: String,
    pub decision: CapabilityTraceDecision,
    pub args: Vec<Value>,
    pub result: Value,
}

pub struct CapabilityTraceV {
    pub id: Seq<char>,
    pub decision: CapabilityTraceDecision,
    pub args: Seq<ValueV>,
    pub result: ValueV,
}

impl View for CapabilityTrace {
    type V = CapabilityTraceV;

    open spec fn view(&self) -> CapabilityTraceV {
        CapabilityTraceV {
            id: self.id@,
            decision: self.decision,
            args: values_view(self.args@),
            result: self.result@,
        }
    }
}

/// One executed instruction, as recorded in a trace.
#[derive(Debug)]
pub struct TraceEvent {
    pub function: String,
    pub pc: usize,
    pub source_line: Option<usize>,
    pub opcode: String,
    pub register_changes: Vec<RegisterChange>,
    pub capability: Option<CapabilityTrace>,
    pub error: Option<String>,
    pub checksum: u64,
}

pub struct TraceEventV {
    pub function: Seq<char>,
    pub pc: usize,
    pub source_line: Option<usize>,
    pub opcode: Seq<char>,
    pub register_changes: Seq<RegisterChangeV>,
    pub capability: Option<CapabilityTraceV>,
    pub error: Option<Seq<char>>,
    pub checksum: u64,
}

pub open spec fn changes_view(s: Seq<RegisterChange>) -> Seq<RegisterChangeV> {
    s.map_values(|c: RegisterChange| c@)
}

pub open spec fn opt_cap_trace_view(c: Option<CapabilityTrace>) -> Option<CapabilityTraceV> {
    match c {
        Some(c) => Some(c@),
        None => None,
    }
}

impl View for TraceEvent {
    type V = TraceEventV;

    open spec fn view(&self) -> TraceEventV {
        TraceEventV {
            function: self.function@,
            pc: self.pc,
            source_line: self.source_line,
            opcode: self.opcode@,
            register_changes: changes_view(self.register_changes@),
            capability: opt_cap_trace_view(self.capability),
            error: opt_string_view(self.error),
            checksum: self.checksum,
        }
    }
}

pub open spec fn events_view(s: Seq<TraceEvent>) -> Seq<TraceEventV> {
    s.map_values(|e: TraceEvent| e@)
}

pub open spec fn opt_value_view(v: Option<Value>) -> Option<ValueV> {
    match v {
        Some(v) => Some(v@),
        None => None,
    }
}

pub open spec fn opt_event_view(e: Option<TraceEvent>) -> Option<TraceEventV> {
    match e {
        Some(e) => Some(e@),
        None => None,
    }
}

/// A recorded run: the module, the entry export, the limits it ran under, every event, and
/// the outcome.
#[derive(Debug)]
pub struct Trace {
    pub module: Module,
    pub entry: String,
    pub limits: VmLimits,
    pub events: Vec<TraceEvent>,
    pub result: Option<Value>,
    pub error: Option<String>,
    pub checksum: u64,
}

pub struct TraceV {
    pub module: ModuleV,
    pub entry: Seq<char>,
    pub limits: VmLimits,
    pub events: Seq<TraceEventV>,
    pub result: Option<ValueV>,
    pub error: Option<Seq<char>>,
    pub checksum: u64,
}

impl View for Trace {
    type V = TraceV;

    open spec fn view(&self) -> TraceV {
        TraceV {
            module: self.module@,
            entry: self.entry@,
            limits: self.limits,
            events: events_view(self.events@),
            result: opt_value_view(self.result),
            error: opt_string_view(self.error),
            checksum: self.checksum,
        }
    }
}

/// What a successful replay checked.
#[derive(Debug)]
pub struct ReplayReport {
    pub events_checked: usize,
    pub result: Option<Value>,
    pub trace_checksum: u64,
}

/// The first place where a replay's events differ from the recorded ones.
#[derive(Debug)]
pub struct ReplayDiff {
    pub index: usize,
    pub expected: Option<TraceEvent>,
    pub actual: Option<TraceEvent>,
}

pub struct ReplayDiffV {
    pub index: usize,
    pub expected: Option<TraceEventV>,
    pub actual: Option<TraceEventV>,
}

impl View for ReplayDiff {
    type V = ReplayDiffV;

    open spec fn view(&self) -> ReplayDiffV {
        ReplayDiffV {
            index: self.index,
            expected: opt_event_view(self.expected),
            actual: opt_event_view(self.actual),
        }
    }
}

/// Why a replay failed.
#[derive(Debug)]
pub struct ReplayError {
    pub message: String,
    pub diff: Option<ReplayDiff>,
}

pub struct ReplayErrorV {
    pub message: Seq<char>,
    pub diff: Option<ReplayDiffV>,
}

impl View for ReplayError {
    type V = ReplayErrorV;

    open spec fn view(&self) -> ReplayErrorV {
        ReplayErrorV {
            message: self.message@,
            diff: match self.diff {
                Some(d) => Some(d@),
                None => None,
            },
        }
    }
}

pub fn clone_register_change(c: &RegisterChange) -> (r: RegisterChange)
    ensures
        r@ == c@,
{
    RegisterChange { register: c.register, value: clone_value(&c.value) }
}

pub fn clone_capability_trace(c: &CapabilityTrace) -> (r: CapabilityTrace)
    ensures
        r@ == c@,
{
    CapabilityTrace {
        id: c.id.clone(),
        decision: c.decision,
        args: clone_values(&c.args),
        result: clone_value(&c.result),
    }
}

fn clone_opt_string(s: &Option<String>) -> (r: Option<String>)
    ensures
        opt_string_view(r) == opt_string_view(*s),
{
    match s {
        Some(s) => Some(s.clone()),
        None => None,
    }
}

pub fn clone_event(e: &TraceEvent) -> (r: TraceEvent)
    ensures
        r@ == e@,
{
    let mut changes: Vec<RegisterChange> = Vec::new();
    let mut i: usize = 0;
    while i < e.register_changes.len()
        invariant
            i <= e.register_changes.len(),
            changes.len() == i,
            forall|j: int| 0 <= j < i ==> (#[trigger] changes@[j])@ == e.register_changes@[j]@,
        decreases e.register_changes.len() - i,
    {
        changes.push(clone_register_change(&e.register_changes[i]));
        i = i + 1;
    }
    assert(changes_view(changes@) =~= changes_view(e.register_changes@));
    let capability = match &e.capability {
        Some(c) => Some(clone_capability_trace(c)),
        None => None,
    };
    TraceEvent {
        function: e.function.clone(),
        pc: e.pc,
        source_line: e.source_line,
        opcode: e.opcode.clone(),
        register_changes: changes,
        capability,
        error: clone_opt_string(&e.error),
        checksum: e.checksum,
    }
}

} // verus!
