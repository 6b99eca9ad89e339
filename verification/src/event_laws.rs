use vstd::prelude::*;
use crate::bytecode::{FunctionV, ModuleV, opcode_name};
use crate::error::ChronicleErrorV;
use crate::machine::{
    Effect, FrameV, HostReplyV, VmV, apply, conclude, count_check, new_event, resume, state_wf, step, unwind_events,
};
use crate::trace::TraceEventV;
use crate::laws::effect_event;

verus! {

/// The event names an instruction of `f`: its name, a position in its code, the opcode at
/// that position and the position's source line.
pub open spec fn in_function(f: FunctionV, e: TraceEventV) -> bool {
    &&& e.function == f.name
    &&& e.pc < f.code.len()
    &&& e.opcode == opcode_name(f.code[e.pc as int])
    &&& e.source_line == new_event(f, e.pc).source_line
}

/// The event names an instruction of some function of `m`.
pub open spec fn in_code(m: ModuleV, e: TraceEventV) -> bool {
    exists|fi: int| 0 <= fi < m.functions.len() && #[trigger] in_function(m.functions[fi], e)
}

/// Two events record the same place: function, position, source line and opcode.
pub open spec fn same_place(a: TraceEventV, b: TraceEventV) -> bool {
    a.function == b.function && a.pc == b.pc && a.source_line == b.source_line && a.opcode == b.opcode
}

/// Every event of the machine, recorded or pending in a frame or in a suspended instruction,
/// names an instruction of its module.
pub open spec fn events_in_code(s: VmV) -> bool {
    &&& forall|i: int| 0 <= i < s.events.len() ==> in_code(s.module, #[trigger] s.events[i])
    &&& forall|i: int| 0 <= i < s.frames.len() ==> ((#[trigger] s.frames[i]).call matches Some(c) ==> in_code(s.module, c.0))
    &&& s.waiting matches Some(w) ==> in_code(s.module, w.event)
}

proof fn lemma_same_place(m: ModuleV, a: TraceEventV, b: TraceEventV)
    requires
        in_code(m, a),
        same_place(a, b),
    ensures
        in_code(m, b),
{
    let fi = choose|fi: int| 0 <= fi < m.functions.len() && #[trigger] in_function(m.functions[fi], a);
    assert(in_function(m.functions[fi], b));
}

proof fn lemma_new_event_in_code(m: ModuleV, fi: int, pc: usize)
    requires
        0 <= fi < m.functions.len(),
        pc < m.functions[fi].code.len(),
    ensures
        in_code(m, new_event(m.functions[fi], pc)),
{
    assert(in_function(m.functions[fi], new_event(m.functions[fi], pc)));
}

proof fn lemma_write_place(e: TraceEventV, regs: Seq<crate::value::ValueV>, dst: usize, v: crate::value::ValueV, pc: usize)
    ensures
        same_place(e, effect_event(crate::machine::write_reg(e, regs, dst, v, pc))),
{
}

proof fn lemma_num_place(
    e: TraceEventV,
    regs: Seq<crate::value::ValueV>,
    dst: usize,
    pc: usize,
    out: crate::machine::NumOutcome,
    request: spec_fn(crate::machine::Number, crate::machine::Number) -> crate::machine::HostRequestV,
)
    ensures
        same_place(e, effect_event(crate::machine::num_effect(e, regs, dst, pc, out, request))),
{
}

proof fn lemma_cap_place(
    s: VmV,
    e: TraceEventV,
    regs: Seq<crate::value::ValueV>,
    pc: usize,
    dst: usize,
    id: Seq<char>,
    args: Seq<crate::value::ValueV>,
)
    ensures
        same_place(e, effect_event(crate::machine::cap_effect(s, e, regs, pc, dst, id, args).0)),
{
}

/// An instruction's effect records the place of the event it was given.
proof fn lemma_apply_place(s: VmV, depth: nat, f: FunctionV, regs: Seq<crate::value::ValueV>, pc: usize, e: TraceEventV)
    ensures
        same_place(e, effect_event(apply(s, depth, f, regs, pc, e).0)),
{
    assert forall|r: Seq<crate::value::ValueV>, d: usize, v: crate::value::ValueV, p: usize|
        #![trigger crate::machine::write_reg(e, r, d, v, p)]
        same_place(e, effect_event(crate::machine::write_reg(e, r, d, v, p))) by {
        lemma_write_place(e, r, d, v, p);
    }
    assert forall|r: Seq<crate::value::ValueV>, d: usize, p: usize, o: crate::machine::NumOutcome, q: spec_fn(crate::machine::Number, crate::machine::Number) -> crate::machine::HostRequestV|
        #![trigger crate::machine::num_effect(e, r, d, p, o, q)]
        same_place(e, effect_event(crate::machine::num_effect(e, r, d, p, o, q))) by {
        lemma_num_place(e, r, d, p, o, q);
    }
    assert forall|r: Seq<crate::value::ValueV>, p: usize, d: usize, id: Seq<char>, a: Seq<crate::value::ValueV>|
        #![trigger crate::machine::cap_effect(s, e, r, p, d, id, a)]
        same_place(e, effect_event(crate::machine::cap_effect(s, e, r, p, d, id, a).0)) by {
        lemma_cap_place(s, e, r, p, d, id, a);
    }
    reveal(apply);
}

proof fn lemma_unwind_in_code(m: ModuleV, fs: Seq<FrameV>, err: ChronicleErrorV)
    requires
        forall|i: int| 0 <= i < fs.len() ==> (#[trigger] fs[i]).call is Some && in_code(m, fs[i].call->Some_0.0),
    ensures
        forall|i: int| 0 <= i < unwind_events(fs, err).len() ==> in_code(m, #[trigger] unwind_events(fs, err)[i]),
        unwind_events(fs, err).len() == fs.len(),
    decreases fs.len(),
{
    if fs.len() > 0 {
        let pre = fs.drop_last();
        assert forall|i: int| 0 <= i < pre.len() implies (#[trigger] pre[i]).call is Some && in_code(m, pre[i].call->Some_0.0) by {
            assert(pre[i] == fs[i]);
        }
        lemma_unwind_in_code(m, pre, err);
        let c = fs.last().call->Some_0.0;
        assert(fs.last() == fs[fs.len() - 1]);
        lemma_same_place(m, c, crate::machine::failed(c, err));
        let u = unwind_events(fs, err);
        assert forall|i: int| 0 <= i < u.len() implies in_code(m, #[trigger] u[i]) by {
            if i > 0 {
                assert(u[i] == unwind_events(pre, err)[i - 1]);
            }
        }
    }
}

proof fn lemma_push_in_code(m: ModuleV, evs: Seq<TraceEventV>, e: TraceEventV)
    requires
        forall|i: int| 0 <= i < evs.len() ==> in_code(m, #[trigger] evs[i]),
        in_code(m, e),
    ensures
        forall|i: int| 0 <= i < evs.push(e).len() ==> in_code(m, #[trigger] evs.push(e)[i]),
{
    assert forall|i: int| 0 <= i < evs.push(e).len() implies in_code(m, #[trigger] evs.push(e)[i]) by {
        if i < evs.len() {
            assert(evs.push(e)[i] == evs[i]);
        }
    }
}

proof fn lemma_concat_in_code(m: ModuleV, a: Seq<TraceEventV>, b: Seq<TraceEventV>)
    requires
        forall|i: int| 0 <= i < a.len() ==> in_code(m, #[trigger] a[i]),
        forall|i: int| 0 <= i < b.len() ==> in_code(m, #[trigger] b[i]),
    ensures
        forall|i: int| 0 <= i < (a + b).len() ==> in_code(m, #[trigger] (a + b)[i]),
{
    assert forall|i: int| 0 <= i < (a + b).len() implies in_code(m, #[trigger] (a + b)[i]) by {
        if i < a.len() {
            assert((a + b)[i] == a[i]);
        } else {
            assert((a + b)[i] == b[i - a.len()]);
        }
    }
}

/// Every frame holds a pending call event.
pub open spec fn calls_pending(m: ModuleV, fs: Seq<FrameV>) -> bool {
    forall|i: int| 0 <= i < fs.len() ==> (#[trigger] fs[i]).call is Some && in_code(m, fs[i].call->Some_0.0)
}

proof fn lemma_finish_failed_code(s: VmV, err: ChronicleErrorV)
    requires
        forall|i: int| 0 <= i < s.events.len() ==> in_code(s.module, #[trigger] s.events[i]),
        calls_pending(s.module, s.frames),
    ensures
        events_in_code(crate::machine::finish_failed(s, err).0),
{
    lemma_unwind_in_code(s.module, s.frames, err);
    lemma_concat_in_code(s.module, s.events, unwind_events(s.frames, err));
}

proof fn lemma_fail_top_code(s: VmV, e: TraceEventV, err: ChronicleErrorV)
    requires
        state_wf(s),
        s.frames.len() > 0,
        forall|i: int| 0 <= i < s.events.len() ==> in_code(s.module, #[trigger] s.events[i]),
        forall|i: int| 0 <= i < s.frames.len() ==> ((#[trigger] s.frames[i]).call matches Some(c) ==> in_code(s.module, c.0)),
        in_code(s.module, e),
    ensures
        events_in_code(crate::machine::fail_top(s, e, err).0),
{
    let fs = s.frames.drop_last();
    assert forall|i: int| 0 <= i < fs.len() implies (#[trigger] fs[i]).call is Some && in_code(s.module, fs[i].call->Some_0.0) by {
        assert(fs[i] == s.frames[i]);
        assert(crate::machine::caller_wf(s.module, s.frames[i]));
    }
    lemma_same_place(s.module, e, crate::machine::failed(e, err));
    lemma_push_in_code(s.module, s.events, crate::machine::failed(e, err));
    let s1 = VmV { frames: fs, events: s.events.push(crate::machine::failed(e, err)), ..s };
    lemma_finish_failed_code(s1, err);
}

/// Every event a run records names an instruction of the module: a step and a reply keep
/// every recorded event, every call event pending in a frame and the event of a suspended
/// instruction at a function of the module, a position in its code, the opcode there and
/// that position's source line.
pub proof fn steps_record_code(s: VmV, reply: HostReplyV)
    requires
        state_wf(s),
        events_in_code(s),
    ensures
        events_in_code(step(s).0),
        events_in_code(resume(s, reply).0),
{
    lemma_step_code(s);
    lemma_resume_code(s, reply);
}

#[verifier::rlimit(40)]
proof fn lemma_step_code(s: VmV)
    requires
        state_wf(s),
        events_in_code(s),
    ensures
        events_in_code(step(s).0),
{
    reveal(step);
    if s.waiting is None && s.frames.len() > 0 {
        let m = s.module;
        let top = s.frames.last();
        assert(crate::machine::frame_wf(m, s.frames[s.frames.len() - 1]));
        let f = m.functions[top.function as int];
        if top.pc >= f.code.len() {
            let s1 = VmV { frames: s.frames.drop_last(), ..s };
            assert forall|i: int| 0 <= i < s1.frames.len() implies (#[trigger] s1.frames[i]).call is Some && in_code(m, s1.frames[i].call->Some_0.0) by {
                assert(s1.frames[i] == s.frames[i]);
                assert(crate::machine::caller_wf(m, s.frames[i]));
            }
            lemma_finish_failed_code(s1, crate::machine::runtime("function "@ + f.name + " ended without ret"@));
        } else {
            let e = new_event(f, top.pc);
            lemma_new_event_in_code(m, top.function as int, top.pc);
            match count_check(s.limits, s.count) {
                Err(err) => lemma_fail_top_code(s, e, err),
                Ok(c) => {
                    let s1 = VmV { count: c, ..s };
                    let (eff, idx) = apply(s1, s.frames.len(), f, top.registers, top.pc, e);
                    lemma_apply_place(s1, s.frames.len(), f, top.registers, top.pc, e);
                    lemma_same_place(m, e, effect_event(eff));
                    let s2 = VmV { replay_index: idx, ..s1 };
                    lemma_conclude_code(s2, top, eff);
                },
            }
        }
    }
}

#[verifier::rlimit(40)]
proof fn lemma_conclude_code(s2: VmV, top: FrameV, eff: Effect)
    requires
        state_wf(s2),
        events_in_code(s2),
        s2.waiting is None,
        s2.frames.len() > 0,
        top == s2.frames.last(),
        in_code(s2.module, effect_event(eff)),
    ensures
        events_in_code(conclude(s2, top, eff).0),
{
    reveal(conclude);
    let m = s2.module;
    let ev = effect_event(eff);
    lemma_same_place(m, ev, crate::digest::sealed(ev));
    match eff {
        Effect::Next { event, registers, next_pc } => {
            lemma_push_in_code(m, s2.events, crate::digest::sealed(event));
            let r = conclude(s2, top, eff).0;
            assert forall|i: int| 0 <= i < r.frames.len() implies ((#[trigger] r.frames[i]).call matches Some(c) ==> in_code(m, c.0)) by {
                if i < r.frames.len() - 1 {
                    assert(r.frames[i] == s2.frames[i]);
                }
            }
        },
        Effect::Return { event, value } => {
            lemma_push_in_code(m, s2.events, crate::digest::sealed(event));
            let s3 = VmV { frames: s2.frames.drop_last(), events: s2.events.push(crate::digest::sealed(event)), ..s2 };
            if s3.frames.len() > 0 {
                let caller = s3.frames.last();
                assert(caller == s2.frames[s2.frames.len() - 2]);
                assert(crate::machine::caller_wf(m, s2.frames[s2.frames.len() - 2]));
                let (e2, dst) = caller.call->Some_0;
                lemma_same_place(m, e2, crate::digest::sealed(crate::machine::add_change(e2, dst, value)));
                lemma_push_in_code(m, s3.events, crate::digest::sealed(crate::machine::add_change(e2, dst, value)));
                let r = conclude(s2, top, eff).0;
                assert forall|i: int| 0 <= i < r.frames.len() implies ((#[trigger] r.frames[i]).call matches Some(c) ==> in_code(m, c.0)) by {
                    if i < r.frames.len() - 1 {
                        assert(r.frames[i] == s2.frames[i]);
                    }
                }
            }
        },
        Effect::Fail { event, error } => {
            lemma_fail_top_code(s2, event, error);
        },
        Effect::Wait { .. } => {},
        Effect::Enter { event, dst, callee, args } => {
            let r = conclude(s2, top, eff).0;
            assert forall|i: int| 0 <= i < r.frames.len() implies ((#[trigger] r.frames[i]).call matches Some(c) ==> in_code(m, c.0)) by {
                if i < r.frames.len() - 2 {
                    assert(r.frames[i] == s2.frames[i]);
                }
            }
        },
    }
}

proof fn lemma_resume_code(s: VmV, reply: HostReplyV)
    requires
        state_wf(s),
        events_in_code(s),
    ensures
        events_in_code(resume(s, reply).0),
{
    reveal(resume);
    if let Some(w) = s.waiting {
        let m = s.module;
        let s1 = VmV { waiting: None, ..s };
        match crate::machine::reply_value(w.request, reply) {
            Ok(v) => {
                let e = match crate::machine::request_capability(w.request) {
                    Some(id) => crate::machine::with_capability(
                        w.event,
                        crate::trace::CapabilityTraceV { id, decision: crate::trace::CapabilityTraceDecision::Granted, args: w.args, result: v },
                    ),
                    None => w.event,
                };
                let x = crate::digest::sealed(crate::machine::add_change(e, w.dst, v));
                lemma_same_place(m, w.event, x);
                lemma_push_in_code(m, s1.events, x);
                let r = resume(s, reply).0;
                assert forall|i: int| 0 <= i < r.frames.len() implies ((#[trigger] r.frames[i]).call matches Some(c) ==> in_code(m, c.0)) by {
                    if i < r.frames.len() - 1 {
                        assert(r.frames[i] == s.frames[i]);
                    }
                }
            },
            Err(err) => {
                lemma_fail_top_code(s1, w.event, err);
            },
        }
    }
}

} // verus!
