use vstd::prelude::*;
use crate::bytecode::{Module, ModuleV, opt_string_view};
use crate::digest::{trace_checksum, trace_digest};
use crate::error::{ChronicleError, ChronicleErrorV, error_text};
use crate::trace::{
    CapabilityTrace, CapabilityTraceV, RegisterChange, RegisterChangeV, ReplayDiff, ReplayDiffV, ReplayError,
    ReplayErrorV, ReplayReport, Trace, TraceEvent, TraceEventV, TraceV, changes_view, clone_event, events_view,
    opt_event_view, opt_value_view,
};
use crate::text::string_of;
use crate::value::{Value, ValueV, clone_value, value_eq, value_equal, value_lists_equal, values_eq, values_view};
use crate::machine::VmLimits;
use crate::vm::Vm;

verus! {

// ---------------------------------------------------------------------------------------
// Equality of recorded events, as the replay compares them

pub open spec fn change_eq(a: RegisterChangeV, b: RegisterChangeV) -> bool {
    a.register == b.register && value_eq(a.value, b.value)
}

pub open spec fn changes_eq(a: Seq<RegisterChangeV>, b: Seq<RegisterChangeV>) -> bool {
    a.len() == b.len() && forall|i: int| 0 <= i < a.len() ==> change_eq(#[trigger] a[i], b[i])
}

pub open spec fn cap_trace_eq(a: CapabilityTraceV, b: CapabilityTraceV) -> bool {
    a.id == b.id && a.decision == b.decision && values_eq(a.args, b.args) && value_eq(a.result, b.result)
}

pub open spec fn opt_cap_trace_eq(a: Option<CapabilityTraceV>, b: Option<CapabilityTraceV>) -> bool {
    match (a, b) {
        (Some(x), Some(y)) => cap_trace_eq(x, y),
        (None, None) => true,
        _ => false,
    }
}

/// Field-wise equality of two events, with the runtime's equality on values.
pub open spec fn event_eq(a: TraceEventV, b: TraceEventV) -> bool {
    &&& a.function == b.function
    &&& a.pc == b.pc
    &&& a.source_line == b.source_line
    &&& a.opcode == b.opcode
    &&& changes_eq(a.register_changes, b.register_changes)
    &&& opt_cap_trace_eq(a.capability, b.capability)
    &&& a.error == b.error
    &&& a.checksum == b.checksum
}

pub open spec fn events_eq(a: Seq<TraceEventV>, b: Seq<TraceEventV>) -> bool {
    a.len() == b.len() && forall|i: int| 0 <= i < a.len() ==> event_eq(#[trigger] a[i], b[i])
}

pub open spec fn opt_value_eq(a: Option<ValueV>, b: Option<ValueV>) -> bool {
    match (a, b) {
        (Some(x), Some(y)) => value_eq(x, y),
        (None, None) => true,
        _ => false,
    }
}

pub open spec fn opt_event_eq(a: Option<TraceEventV>, b: Option<TraceEventV>) -> bool {
    match (a, b) {
        (Some(x), Some(y)) => event_eq(x, y),
        (None, None) => true,
        _ => false,
    }
}

fn change_equal(a: &RegisterChange, b: &RegisterChange) -> (r: bool)
    ensures
        r == change_eq(a@, b@),
{
    a.register == b.register && value_equal(&a.value, &b.value)
}

fn cap_trace_equal(a: &CapabilityTrace, b: &CapabilityTrace) -> (r: bool)
    ensures
        r == cap_trace_eq(a@, b@),
{
    a.id == b.id && a.decision == b.decision && value_lists_equal(&a.args, &b.args) && value_equal(
        &a.result,
        &b.result,
    )
}

fn opt_string_equal(a: &Option<String>, b: &Option<String>) -> (r: bool)
    ensures
        r == (opt_string_view(*a) == opt_string_view(*b)),
{
    match (a, b) {
        (Some(x), Some(y)) => *x == *y,
        (None, None) => true,
        _ => false,
    }
}

/// Whether two events are equal field by field.
pub fn event_equal(a: &TraceEvent, b: &TraceEvent) -> (r: bool)
    ensures
        r == event_eq(a@, b@),
{
    if !(a.function == b.function && a.pc == b.pc && a.source_line == b.source_line && a.opcode == b.opcode) {
        return false;
    }
    if a.register_changes.len() != b.register_changes.len() {
        return false;
    }
    let mut i: usize = 0;
    while i < a.register_changes.len()
        invariant
            i <= a.register_changes.len(),
            a.register_changes.len() == b.register_changes.len(),
            forall|j: int| 0 <= j < i ==> change_eq(#[trigger] a@.register_changes[j], b@.register_changes[j]),
        decreases a.register_changes.len() - i,
    {
        if !change_equal(&a.register_changes[i], &b.register_changes[i]) {
            assert(!change_eq(a@.register_changes[i as int], b@.register_changes[i as int]));
            return false;
        }
        i = i + 1;
    }
    let caps = match (&a.capability, &b.capability) {
        (Some(x), Some(y)) => cap_trace_equal(x, y),
        (None, None) => true,
        _ => false,
    };
    caps && opt_string_equal(&a.error, &b.error) && a.checksum == b.checksum
}

/// Whether two event lists are equal element by element.
pub fn events_equal(a: &Vec<TraceEvent>, b: &Vec<TraceEvent>) -> (r: bool)
    ensures
        r == events_eq(events_view(a@), events_view(b@)),
{
    if a.len() != b.len() {
        return false;
    }
    let mut i: usize = 0;
    while i < a.len()
        invariant
            i <= a.len(),
            a.len() == b.len(),
            forall|j: int| 0 <= j < i ==> event_eq(#[trigger] events_view(a@)[j], events_view(b@)[j]),
        decreases a.len() - i,
    {
        if !event_equal(&a[i], &b[i]) {
            assert(!event_eq(events_view(a@)[i as int], events_view(b@)[i as int]));
            return false;
        }
        i = i + 1;
    }
    true
}

// ---------------------------------------------------------------------------------------
// Divergence

pub open spec fn event_at(s: Seq<TraceEventV>, i: int) -> Option<TraceEventV> {
    if 0 <= i < s.len() {
        Some(s[i])
    } else {
        None
    }
}

pub open spec fn max_len(a: Seq<TraceEventV>, b: Seq<TraceEventV>) -> nat {
    if a.len() >= b.len() {
        a.len()
    } else {
        b.len()
    }
}

/// The first position where the recorded and the replayed events differ, with the events
/// found there; past the end of both lists when no position differs.
pub open spec fn first_diff(expected: Seq<TraceEventV>, actual: Seq<TraceEventV>) -> ReplayDiffV {
    let n = max_len(expected, actual);
    if exists|i: int| 0 <= i < n && !opt_event_eq(#[trigger] event_at(expected, i), event_at(actual, i)) {
        let i = choose|i: int|
            0 <= i < n && !opt_event_eq(#[trigger] event_at(expected, i), event_at(actual, i)) && forall|j: int|
                0 <= j < i ==> opt_event_eq(#[trigger] event_at(expected, j), event_at(actual, j));
        ReplayDiffV { index: i as usize, expected: event_at(expected, i), actual: event_at(actual, i) }
    } else {
        ReplayDiffV { index: n as usize, expected: None, actual: None }
    }
}

/// The first position where two event lists differ.
pub fn first_replay_diff(expected: &Vec<TraceEvent>, actual: &Vec<TraceEvent>) -> (d: ReplayDiff)
    ensures
        d@ == first_diff(events_view(expected@), events_view(actual@)),
{
    let ghost ev = events_view(expected@);
    let ghost av = events_view(actual@);
    let len = if expected.len() >= actual.len() {
        expected.len()
    } else {
        actual.len()
    };
    let mut index: usize = 0;
    while index < len
        invariant
            ev == events_view(expected@),
            av == events_view(actual@),
            len == max_len(ev, av),
            index <= len,
            forall|j: int| 0 <= j < index ==> opt_event_eq(#[trigger] event_at(ev, j), event_at(av, j)),
        decreases len - index,
    {
        let e = if index < expected.len() {
            Some(clone_event(&expected[index]))
        } else {
            None
        };
        let a = if index < actual.len() {
            Some(clone_event(&actual[index]))
        } else {
            None
        };
        let same = match (&e, &a) {
            (Some(x), Some(y)) => event_equal(x, y),
            (None, None) => true,
            _ => false,
        };
        assert(opt_event_view(e) == event_at(ev, index as int));
        assert(opt_event_view(a) == event_at(av, index as int));
        if !same {
            proof {
                assert(!opt_event_eq(event_at(ev, index as int), event_at(av, index as int)));
                let i = index as int;
                let k = choose|k: int|
                    0 <= k < len && !opt_event_eq(#[trigger] event_at(ev, k), event_at(av, k)) && forall|j: int|
                        0 <= j < k ==> opt_event_eq(#[trigger] event_at(ev, j), event_at(av, j));
                assert(k == i) by {
                    if k < i {
                        assert(opt_event_eq(event_at(ev, k), event_at(av, k)));
                    }
                    if i < k {
                        assert(opt_event_eq(event_at(ev, i), event_at(av, i)));
                    }
                }
            }
            return ReplayDiff { index, expected: e, actual: a };
        }
        index = index + 1;
    }
    ReplayDiff { index: len, expected: None, actual: None }
}

// ---------------------------------------------------------------------------------------
// Traces

/// The trace of a run of `entry` in `m` under `limits` that ended with `result` after
/// `events`.
pub open spec fn trace_record(
    m: ModuleV,
    entry: Seq<char>,
    limits: VmLimits,
    result: Result<ValueV, ChronicleErrorV>,
    events: Seq<TraceEventV>,
) -> TraceV {
    match result {
        Ok(v) => TraceV {
            module: m,
            entry,
            limits,
            events,
            result: Some(v),
            error: None,
            checksum: trace_digest(events, Some(v), None),
        },
        Err(e) => TraceV {
            module: m,
            entry,
            limits,
            events,
            result: None,
            error: Some(error_text(e)),
            checksum: trace_digest(events, None, Some(error_text(e))),
        },
    }
}

pub open spec fn result_view(r: Result<Value, ChronicleError>) -> Result<ValueV, ChronicleErrorV> {
    match r {
        Ok(v) => Ok(v@),
        Err(e) => Err(e@),
    }
}

pub struct ReplayReportV {
    pub events_checked: usize,
    pub result: Option<ValueV>,
    pub trace_checksum: u64,
}

impl View for ReplayReport {
    type V = ReplayReportV;

    open spec fn view(&self) -> ReplayReportV {
        ReplayReportV { events_checked: self.events_checked, result: opt_value_view(self.result), trace_checksum: self.trace_checksum }
    }
}

pub open spec fn replay_failure(message: Seq<char>) -> ChronicleErrorV {
    ChronicleErrorV::Replay(ReplayErrorV { message, diff: None })
}

/// The verdict on a replay of `trace` that ended with `result` after `events`: the replay's
/// own failure (unless the trace recorded a failure with the same text), the first
/// divergence from the recorded events, a different result, a different checksum, or the
/// report of a faithful replay.
pub open spec fn replay_verdict(trace: TraceV, result: Result<ValueV, ChronicleErrorV>, events: Seq<TraceEventV>) -> Result<ReplayReportV, ChronicleErrorV> {
    match result {
        Err(e) => if trace.result is Some || trace.error != Some(error_text(e)) {
            Err(e)
        } else if !events_eq(events, trace.events) {
            Err(ChronicleErrorV::Replay(ReplayErrorV {
                message: "trace events did not match replay"@,
                diff: Some(first_diff(trace.events, events)),
            }))
        } else if trace_digest(events, None, Some(error_text(e))) != trace.checksum {
            Err(replay_failure("trace checksum did not match replay"@))
        } else {
            Ok(ReplayReportV { events_checked: events.len() as usize, result: None, trace_checksum: trace.checksum })
        },
        Ok(v) => if !events_eq(events, trace.events) {
            Err(ChronicleErrorV::Replay(ReplayErrorV {
                message: "trace events did not match replay"@,
                diff: Some(first_diff(trace.events, events)),
            }))
        } else if !opt_value_eq(Some(v), trace.result) {
            Err(replay_failure("trace result did not match replay"@))
        } else if trace_digest(events, Some(v), None) != trace.checksum {
            Err(replay_failure("trace checksum did not match replay"@))
        } else {
            Ok(ReplayReportV { events_checked: events.len() as usize, result: Some(v), trace_checksum: trace.checksum })
        },
    }
}

impl Vm {
    /// The trace of the run of `entry` that ended with `result` after `events`: the module,
    /// the entry, the events, the result or the error text, and the checksum over events,
    /// result and error.
    pub fn trace_of(&self, entry: &str, result: Result<Value, ChronicleError>, events: Vec<TraceEvent>) -> (t: Trace)
        ensures
            t@ == trace_record(self@.module, entry@, self@.limits, result_view(result), events_view(events@)),
    {
        let module = self.module().clone();
        let limits = self.limits();
        match result {
            Ok(v) => {
                let r = Some(v);
                let none: Option<String> = None;
                let checksum = trace_checksum(&events, &r, &none);
                Trace { module, entry: string_of(entry), limits, events, result: r, error: None, checksum }
            },
            Err(e) => {
                let text = e.to_text();
                let err = Some(text);
                let none: Option<Value> = None;
                let checksum = trace_checksum(&events, &none, &err);
                Trace { module, entry: string_of(entry), limits, events, result: None, error: err, checksum }
            },
        }
    }

    /// Checks a replay of `trace` that ended with `result` after `events` against the
    /// recording.
    pub fn check_replay(trace: &Trace, result: Result<Value, ChronicleError>, events: Vec<TraceEvent>) -> (r: Result<
        ReplayReport,
        ChronicleError,
    >)
        ensures
            match (r, replay_verdict(trace@, result_view(result), events_view(events@))) {
                (Ok(a), Ok(b)) => a@ == b,
                (Err(a), Err(b)) => a@ == b,
                _ => false,
            },
    {
        let v = match result {
            Ok(v) => v,
            Err(e) => {
                let text = e.to_text();
                let recorded = match (&trace.result, &trace.error) {
                    (None, Some(t)) => *t == text,
                    _ => false,
                };
                if !recorded {
                    return Err(e);
                }
                if !events_equal(&events, &trace.events) {
                    let diff = first_replay_diff(&trace.events, &events);
                    return Err(
                        ChronicleError::Replay(
                            Box::new(ReplayError { message: string_of("trace events did not match replay"), diff: Some(diff) }),
                        ),
                    );
                }
                let none: Option<Value> = None;
                let err = Some(text);
                let checksum = trace_checksum(&events, &none, &err);
                if checksum != trace.checksum {
                    return Err(
                        ChronicleError::Replay(
                            Box::new(ReplayError { message: string_of("trace checksum did not match replay"), diff: None }),
                        ),
                    );
                }
                return Ok(ReplayReport { events_checked: events.len(), result: None, trace_checksum: checksum });
            },
        };
        if !events_equal(&events, &trace.events) {
            let diff = first_replay_diff(&trace.events, &events);
            return Err(
                ChronicleError::Replay(
                    Box::new(ReplayError { message: string_of("trace events did not match replay"), diff: Some(diff) }),
                ),
            );
        }
        let same_result = match &trace.result {
            Some(t) => value_equal(&v, t),
            None => false,
        };
        if !same_result {
            return Err(
                ChronicleError::Replay(
                    Box::new(ReplayError { message: string_of("trace result did not match replay"), diff: None }),
                ),
            );
        }
        let r = Some(clone_value(&v));
        let none: Option<String> = None;
        let checksum = trace_checksum(&events, &r, &none);
        if checksum != trace.checksum {
            return Err(
                ChronicleError::Replay(
                    Box::new(ReplayError { message: string_of("trace checksum did not match replay"), diff: None }),
                ),
            );
        }
        Ok(ReplayReport { events_checked: events.len(), result: Some(v), trace_checksum: checksum })
    }
}

} // verus!
