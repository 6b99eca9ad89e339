use vstd::prelude::*;
use crate::bytecode::{CapabilityDeclV, InstructionV, ModuleV, find_function};
use crate::checks::{module_wf, verify_module};
use crate::error::ChronicleErrorV;
use crate::machine::{
    lemma_step_instr, lemma_step_other, capability_request,
    Effect, FrameV, HostReplyV, HostRequestV, StepV, VmLimits, VmV, WaitingV, add_change, all_granted, apply, cap_effect,
    conclude, count_check, deliver, enter_check, fail_top, finish_failed, fresh, read_regs, recorded_calls,
    reply_value, request_capability, resume, start, step, unwind_events, with_capability, write_reg,
};
use crate::policy::{DecisionV, lookup};
use crate::trace::{CapabilityTraceDecision, CapabilityTraceV, TraceEventV};
use crate::value::{ValueV, lemma_value_eq_refl, nan_free, values_eq};

verus! {

/// Whether a host request goes to the floating-point unit rather than the outside world.
pub open spec fn is_float_request(r: HostRequestV) -> bool {
    r is Arith || r is Less
}

/// A run of the machine from `s`, for at most `fuel` instructions: floating-point requests
/// are answered by `fpu`, and the `k`-th request to the outside world by `world(k, ..)`.
/// The outcome and the events of the run, or `None` when the fuel runs out first.
#[verifier::opaque]
pub open spec fn run(
    s: VmV,
    fpu: spec_fn(HostRequestV) -> HostReplyV,
    world: spec_fn(nat, HostRequestV) -> HostReplyV,
    k: nat,
    fuel: nat,
) -> Option<(Result<ValueV, ChronicleErrorV>, Seq<TraceEventV>)>
    decreases fuel,
{
    if fuel == 0 {
        None
    } else {
        let (s1, st) = step(s);
        match st {
            StepV::Running => run(s1, fpu, world, k, (fuel - 1) as nat),
            StepV::Host(req) => {
                let reply = if is_float_request(req) {
                    fpu(req)
                } else {
                    world(k, req)
                };
                let k2 = if is_float_request(req) {
                    k
                } else {
                    k + 1
                };
                let (s2, st2) = resume(s1, reply);
                match st2 {
                    StepV::Finished(r) => Some((r, s2.events)),
                    _ => run(s2, fpu, world, k2, (fuel - 1) as nat),
                }
            },
            StepV::Finished(r) => Some((r, s1.events)),
            StepV::Idle => None,
        }
    }
}


/// The host's reply to `req` in a run, and the number of world requests after it.
pub open spec fn host_reply(
    req: HostRequestV,
    fpu: spec_fn(HostRequestV) -> HostReplyV,
    world: spec_fn(nat, HostRequestV) -> HostReplyV,
    k: nat,
) -> (HostReplyV, nat) {
    if is_float_request(req) {
        (fpu(req), k)
    } else {
        (world(k, req), k + 1)
    }
}

proof fn lemma_run_unfold(
    s: VmV,
    fpu: spec_fn(HostRequestV) -> HostReplyV,
    world: spec_fn(nat, HostRequestV) -> HostReplyV,
    k: nat,
    fuel: nat,
)
    requires
        fuel > 0,
    ensures
        run(s, fpu, world, k, fuel) == match step(s).1 {
            StepV::Running => run(step(s).0, fpu, world, k, (fuel - 1) as nat),
            StepV::Host(req) => {
                let (reply, k2) = host_reply(req, fpu, world, k);
                let (s2, st2) = resume(step(s).0, reply);
                match st2 {
                    StepV::Finished(r) => Some((r, s2.events)),
                    _ => run(s2, fpu, world, k2, (fuel - 1) as nat),
                }
            },
            StepV::Finished(r) => Some((r, step(s).0.events)),
            StepV::Idle => None,
        },
{
    reveal(run);
}

/// `a` is a prefix of `b`.
pub open spec fn extends<T>(a: Seq<T>, b: Seq<T>) -> bool {
    a.len() <= b.len() && b.subrange(0, a.len() as int) == a
}

proof fn lemma_extends_trans<T>(a: Seq<T>, b: Seq<T>, c: Seq<T>)
    requires
        extends(a, b),
        extends(b, c),
    ensures
        extends(a, c),
{
    assert(c.subrange(0, a.len() as int) =~= c.subrange(0, b.len() as int).subrange(0, a.len() as int));
}

proof fn lemma_extends_concat<T>(a: Seq<T>, b: Seq<T>)
    ensures
        extends(a, a + b),
{
    assert((a + b).subrange(0, a.len() as int) =~= a);
}

proof fn lemma_extends_push<T>(a: Seq<T>, x: T)
    ensures
        extends(a, a.push(x)),
{
    assert(a.push(x).subrange(0, a.len() as int) =~= a);
}

proof fn lemma_finish_failed_extends(s: VmV, err: ChronicleErrorV)
    ensures
        extends(s.events, finish_failed(s, err).0.events),
{
    lemma_extends_concat(s.events, unwind_events(s.frames, err));
}

proof fn lemma_fail_top_extends(s: VmV, e: TraceEventV, err: ChronicleErrorV)
    ensures
        extends(s.events, fail_top(s, e, err).0.events),
{
    let s1 = VmV { frames: s.frames.drop_last(), events: s.events.push(crate::machine::failed(e, err)), ..s };
    lemma_extends_push(s.events, crate::machine::failed(e, err));
    lemma_finish_failed_extends(s1, err);
    lemma_extends_trans(s.events, s1.events, fail_top(s, e, err).0.events);
}

/// A step only appends events.
proof fn lemma_step_extends(s: VmV)
    ensures
        extends(s.events, step(s).0.events),
{
    reveal(step);
    reveal(conclude);
    if s.waiting is None && s.frames.len() > 0 {
        let top = s.frames.last();
        let f = s.module.functions[top.function as int];
        if top.pc >= f.code.len() {
            lemma_finish_failed_extends(VmV { frames: s.frames.drop_last(), ..s }, crate::machine::runtime("function "@ + f.name + " ended without ret"@));
        } else {
            let e = crate::machine::new_event(f, top.pc);
            match count_check(s.limits, s.count) {
                Err(err) => lemma_fail_top_extends(s, e, err),
                Ok(c) => {
                    let s1 = VmV { count: c, ..s };
                    let (eff, idx) = apply(s1, s.frames.len(), f, top.registers, top.pc, e);
                    let s2 = VmV { replay_index: idx, ..s1 };
                    match eff {
                        Effect::Next { event, .. } => lemma_extends_push(s2.events, crate::digest::sealed(event)),
                        Effect::Return { event, value } => {
                            let s3 = VmV { frames: s2.frames.drop_last(), events: s2.events.push(crate::digest::sealed(event)), ..s2 };
                            lemma_extends_push(s2.events, crate::digest::sealed(event));
                            if s3.frames.len() > 0 {
                                let (e2, dst) = s3.frames.last().call->Some_0;
                                lemma_extends_push(s3.events, crate::digest::sealed(add_change(e2, dst, value)));
                                lemma_extends_trans(s2.events, s3.events, deliver(s3, value).0.events);
                            }
                        },
                        Effect::Fail { event, error } => lemma_fail_top_extends(s2, event, error),
                        _ => {
                            assert(s.events.subrange(0, s.events.len() as int) =~= s.events);
                        },
                    }
                },
            }
        }
    } else {
        assert(s.events.subrange(0, s.events.len() as int) =~= s.events);
    }
}

/// A reply only appends events.
proof fn lemma_resume_extends(s: VmV, reply: HostReplyV)
    ensures
        extends(s.events, resume(s, reply).0.events),
{
    reveal(resume);
    match s.waiting {
        None => {
            assert(s.events.subrange(0, s.events.len() as int) =~= s.events);
        },
        Some(w) => {
            let s1 = VmV { waiting: None, ..s };
            match reply_value(w.request, reply) {
                Ok(v) => {
                    let e = match request_capability(w.request) {
                        Some(id) => with_capability(
                            w.event,
                            CapabilityTraceV { id, decision: CapabilityTraceDecision::Granted, args: w.args, result: v },
                        ),
                        None => w.event,
                    };
                    lemma_extends_push(s1.events, crate::digest::sealed(add_change(e, w.dst, v)));
                },
                Err(err) => lemma_fail_top_extends(s1, w.event, err),
            }
        },
    }
}

/// A run only appends events to those the machine started with.
pub proof fn lemma_run_extends(
    s: VmV,
    fpu: spec_fn(HostRequestV) -> HostReplyV,
    world: spec_fn(nat, HostRequestV) -> HostReplyV,
    k: nat,
    fuel: nat,
)
    requires
        run(s, fpu, world, k, fuel) is Some,
    ensures
        extends(s.events, run(s, fpu, world, k, fuel)->Some_0.1),
    decreases fuel,
{
    reveal(run);
    let (s1, st) = step(s);
    lemma_step_extends(s);
    match st {
        StepV::Running => {
            lemma_run_extends(s1, fpu, world, k, (fuel - 1) as nat);
            lemma_extends_trans(s.events, s1.events, run(s1, fpu, world, k, (fuel - 1) as nat)->Some_0.1);
        },
        StepV::Host(req) => {
            let reply = if is_float_request(req) {
                fpu(req)
            } else {
                world(k, req)
            };
            let k2 = if is_float_request(req) {
                k
            } else {
                k + 1
            };
            let (s2, st2) = resume(s1, reply);
            lemma_resume_extends(s1, reply);
            lemma_extends_trans(s.events, s1.events, s2.events);
            match st2 {
                StepV::Finished(_) => {},
                _ => {
                    lemma_run_extends(s2, fpu, world, k2, (fuel - 1) as nat);
                    lemma_extends_trans(s.events, s2.events, run(s2, fpu, world, k2, (fuel - 1) as nat)->Some_0.1);
                },
            }
        },
        _ => {},
    }
}

/// The calls recorded in a prefix of the events are a prefix of the calls recorded in all
/// of them.
pub proof fn lemma_recorded_calls_extends(a: Seq<TraceEventV>, b: Seq<TraceEventV>)
    requires
        extends(a, b),
    ensures
        extends(recorded_calls(a), recorded_calls(b)),
    decreases b.len(),
{
    if a.len() == b.len() {
        assert(b.subrange(0, a.len() as int) =~= b);
        assert(recorded_calls(b).subrange(0, recorded_calls(b).len() as int) =~= recorded_calls(b));
    } else {
        let b0 = b.drop_last();
        assert(b0.subrange(0, a.len() as int) =~= b.subrange(0, a.len() as int));
        lemma_recorded_calls_extends(a, b0);
        let tail = match b.last().capability {
            Some(c) => seq![c],
            None => Seq::<CapabilityTraceV>::empty(),
        };
        lemma_extends_concat(recorded_calls(b0), tail);
        lemma_extends_trans(recorded_calls(a), recorded_calls(b0), recorded_calls(b));
    }
}


/// The capability calls an event records: none or one.
pub open spec fn event_calls(e: TraceEventV) -> Seq<CapabilityTraceV> {
    match e.capability {
        Some(c) => seq![c],
        None => Seq::empty(),
    }
}

proof fn lemma_recorded_push(s: Seq<TraceEventV>, e: TraceEventV)
    ensures
        recorded_calls(s.push(e)) == recorded_calls(s) + event_calls(e),
{
    assert(s.push(e).drop_last() =~= s);
}

/// No pending call instruction has recorded a capability call.
pub open spec fn calls_plain(fs: Seq<FrameV>) -> bool {
    forall|i: int| 0 <= i < fs.len() ==> ((#[trigger] fs[i]).call matches Some(c) ==> c.0.capability is None)
}

/// Every frame but the innermost waits in a call instruction.
pub open spec fn callers_waiting(fs: Seq<FrameV>) -> bool {
    forall|i: int| 0 <= i < fs.len() - 1 ==> (#[trigger] fs[i]).call is Some
}

/// The outside world answers every request for a capability with a reply of its kind.
pub open spec fn world_answers(world: spec_fn(nat, HostRequestV) -> HostReplyV) -> bool {
    forall|k: nat, req: HostRequestV| !is_float_request(req) ==> (#[trigger] reply_value(req, world(k, req))) is Ok
}

/// An outcome the replay reproduces: a result, or a failure that no policy decision caused,
/// in a world that answers every capability request.
pub open spec fn mirrorable(r: Result<ValueV, ChronicleErrorV>, world: spec_fn(nat, HostRequestV) -> HostReplyV) -> bool {
    match r {
        Ok(_) => true,
        Err(e) => !(e is Policy) && world_answers(world),
    }
}

/// Every value in the arguments of the recorded calls is free of NaN.
pub open spec fn calls_nan_free(rec: Seq<CapabilityTraceV>) -> bool {
    forall|i: int, j: int| 0 <= i < rec.len() && 0 <= j < rec[i].args.len() ==> nan_free(#[trigger] rec[i].args[j])
}

/// The replay machine `p` mirrors the live machine `l`: the same module, frames, events,
/// instruction count and limits, the recorded calls `rec`, and a position in them just past
/// the calls that `l` has made so far.
pub open spec fn mirrors(l: VmV, p: VmV, rec: Seq<CapabilityTraceV>) -> bool {
    &&& l.live
    &&& p == VmV {
        capabilities: p.capabilities,
        replay: rec,
        replay_index: p.replay_index,
        live: false,
        ..l
    }
    &&& p.replay_index == recorded_calls(l.events).len()
    &&& l.waiting is None
    &&& calls_plain(l.frames)
    &&& callers_waiting(l.frames)
    &&& extends(recorded_calls(l.events), rec)
}

pub open spec fn effect_event(eff: Effect) -> TraceEventV {
    match eff {
        Effect::Next { event, .. } => event,
        Effect::Return { event, .. } => event,
        Effect::Fail { event, .. } => event,
        Effect::Wait { event, .. } => event,
        Effect::Enter { event, .. } => event,
    }
}

/// An instruction other than a capability call that does not fail behaves alike in the
/// live and in the replay machine.
proof fn lemma_apply_mirror(sl: VmV, sp: VmV, depth: nat, f: crate::bytecode::FunctionV, regs: Seq<ValueV>, pc: usize, e: TraceEventV)
    requires
        sl.module == sp.module,
        sp.limits == sl.limits,
        !(f.code[pc as int] is CapCall),
    ensures
        apply(sp, depth, f, regs, pc, e) == (apply(sl, depth, f, regs, pc, e).0, sp.replay_index),
        apply(sl, depth, f, regs, pc, e).1 == sl.replay_index,
        e.capability is None ==> effect_event(apply(sl, depth, f, regs, pc, e).0).capability is None,
        apply(sl, depth, f, regs, pc, e).0 matches Effect::Wait { request, event, .. } ==> is_float_request(request)
            && event == e,
        apply(sl, depth, f, regs, pc, e).0 matches Effect::Enter { event, .. } ==> event == e,
{
    reveal(apply);
}

proof fn lemma_mirror_run(
    l: VmV,
    p: VmV,
    rec: Seq<CapabilityTraceV>,
    fpu: spec_fn(HostRequestV) -> HostReplyV,
    world: spec_fn(nat, HostRequestV) -> HostReplyV,
    worldp: spec_fn(nat, HostRequestV) -> HostReplyV,
    k: nat,
    kp: nat,
    fuel: nat,
    r: Result<ValueV, ChronicleErrorV>,
    evs: Seq<TraceEventV>,
)
    requires
        mirrors(l, p, rec),
        run(l, fpu, world, k, fuel) == Some((r, evs)),
        recorded_calls(evs) == rec,
        calls_nan_free(rec),
        mirrorable(r, world),
        rec.len() <= usize::MAX,
    ensures
        run(p, fpu, worldp, kp, fuel) == Some((r, evs)),
    decreases fuel, 2nat,
{
    assert(fuel > 0) by {
        reveal(run);
    }
    lemma_run_unfold(l, fpu, world, k, fuel);
    lemma_run_unfold(p, fpu, worldp, kp, fuel);
    lemma_step_other(l);
    assert(l.frames.len() > 0);
    let top = l.frames.last();
    let f = l.module.functions[top.function as int];
    if top.pc >= f.code.len() || count_check(l.limits, l.count) is Err {
        reveal(step);
        assert(step(p).1 == step(l).1);
        assert(step(p).0.events == step(l).0.events);
    } else if f.code[top.pc as int] is CapCall {
        lemma_mirror_cap(l, p, rec, fpu, world, worldp, k, kp, fuel, r, evs);
    } else {
        lemma_mirror_plain(l, p, rec, fpu, world, worldp, k, kp, fuel, r, evs);
    }
}

/// Like [`mirrors`], with both machines suspended on the same floating-point request of an
/// instruction that records no capability call.
pub open spec fn mirrors_waiting(l: VmV, p: VmV, rec: Seq<CapabilityTraceV>) -> bool {
    &&& l.live
    &&& p == VmV {
        capabilities: p.capabilities,
        replay: rec,
        replay_index: p.replay_index,
        live: false,
        ..l
    }
    &&& p.replay_index == recorded_calls(l.events).len()
    &&& l.waiting matches Some(w) && is_float_request(w.request) && w.event.capability is None
    &&& l.frames.len() > 0
    &&& calls_plain(l.frames)
    &&& callers_waiting(l.frames)
    &&& extends(recorded_calls(l.events), rec)
}

spec fn concluded_alike(s2l: VmV, s2p: VmV, top: FrameV, eff: Effect, rec: Seq<CapabilityTraceV>) -> bool {
    &&& conclude(s2p, top, eff).1 == conclude(s2l, top, eff).1
    &&& conclude(s2l, top, eff).1 is Running ==> mirrors(conclude(s2l, top, eff).0, conclude(s2p, top, eff).0, rec)
    &&& conclude(s2l, top, eff).1 is Finished ==> conclude(s2p, top, eff).0.events == conclude(s2l, top, eff).0.events
    &&& conclude(s2l, top, eff).1 is Host ==> mirrors_waiting(conclude(s2l, top, eff).0, conclude(s2p, top, eff).0, rec)
        && conclude(s2l, top, eff).1->Host_0 == conclude(s2l, top, eff).0.waiting->Some_0.request
}

spec fn conclude_pre(s2l: VmV, s2p: VmV, top: FrameV, eff: Effect, rec: Seq<CapabilityTraceV>) -> bool {
    &&& mirrors(VmV { count: s2l.count, ..s2l }, s2p, rec)
    &&& s2l.frames.len() > 0
    &&& top == s2l.frames.last()
    &&& effect_event(eff).capability is None
    &&& eff matches Effect::Wait { request, .. } ==> is_float_request(request)
}

proof fn lemma_conclude_next(s2l: VmV, s2p: VmV, top: FrameV, eff: Effect, rec: Seq<CapabilityTraceV>)
    requires
        conclude_pre(s2l, s2p, top, eff, rec),
        eff is Next,
    ensures
        concluded_alike(s2l, s2p, top, eff, rec),
{
    reveal(conclude);
    let l2 = conclude(s2l, top, eff).0;
    assert forall|i: int| 0 <= i < l2.frames.len() - 1 implies (#[trigger] l2.frames[i]).call is Some by {
        assert(l2.frames[i] == s2l.frames[i]);
    }
    lemma_recorded_push(s2l.events, crate::digest::sealed(effect_event(eff)));
    assert(recorded_calls(l2.events) =~= recorded_calls(s2l.events));
    assert forall|i: int| 0 <= i < l2.frames.len() implies ((#[trigger] l2.frames[i]).call matches Some(cc)
        ==> cc.0.capability is None) by {
        if i < l2.frames.len() - 1 {
            assert(l2.frames[i] == s2l.frames[i]);
        } else {
            assert(l2.frames[i].call == s2l.frames[s2l.frames.len() - 1].call);
        }
    }
}

#[verifier::rlimit(40)]
proof fn lemma_conclude_return(s2l: VmV, s2p: VmV, top: FrameV, eff: Effect, rec: Seq<CapabilityTraceV>)
    requires
        conclude_pre(s2l, s2p, top, eff, rec),
        eff is Return,
    ensures
        concluded_alike(s2l, s2p, top, eff, rec),
{
    reveal(conclude);
    let event = effect_event(eff);
    let value = eff->Return_value;
    let s3l = VmV { frames: s2l.frames.drop_last(), events: s2l.events.push(crate::digest::sealed(event)), ..s2l };
    if s3l.frames.len() > 0 {
        let l2 = conclude(s2l, top, eff).0;
        assert forall|i: int| 0 <= i < l2.frames.len() - 1 implies (#[trigger] l2.frames[i]).call is Some by {
            assert(l2.frames[i] == s2l.frames[i]);
        }
        assert(s2l.frames[s2l.frames.len() - 2].call is Some);
        let caller = s3l.frames.last();
        assert(caller == s2l.frames[s2l.frames.len() - 2]);
        let (ce, dst) = caller.call->Some_0;
        assert(calls_plain(s2l.frames));
        assert(s2l.frames[s2l.frames.len() - 2].call matches Some(cc) ==> cc.0.capability is None);
        assert(ce.capability is None);
        lemma_recorded_push(s2l.events, crate::digest::sealed(event));
        lemma_recorded_push(s3l.events, crate::digest::sealed(add_change(ce, dst, value)));
        assert(event_calls(crate::digest::sealed(event)) =~= Seq::<CapabilityTraceV>::empty());
        assert(event_calls(crate::digest::sealed(add_change(ce, dst, value))) =~= Seq::<CapabilityTraceV>::empty());
        assert(recorded_calls(l2.events) =~= recorded_calls(s2l.events));
        assert forall|i: int| 0 <= i < l2.frames.len() implies ((#[trigger] l2.frames[i]).call matches Some(cc)
            ==> cc.0.capability is None) by {
            if i < l2.frames.len() - 1 {
                assert(l2.frames[i] == s2l.frames[i]);
            }
        }
    }
}

proof fn lemma_conclude_wait(s2l: VmV, s2p: VmV, top: FrameV, eff: Effect, rec: Seq<CapabilityTraceV>)
    requires
        conclude_pre(s2l, s2p, top, eff, rec),
        eff is Wait,
    ensures
        concluded_alike(s2l, s2p, top, eff, rec),
{
    reveal(conclude);
}

proof fn lemma_conclude_enter(s2l: VmV, s2p: VmV, top: FrameV, eff: Effect, rec: Seq<CapabilityTraceV>)
    requires
        conclude_pre(s2l, s2p, top, eff, rec),
        eff is Enter,
    ensures
        concluded_alike(s2l, s2p, top, eff, rec),
{
    reveal(conclude);
    let l2 = conclude(s2l, top, eff).0;
    assert forall|i: int| 0 <= i < l2.frames.len() - 1 implies (#[trigger] l2.frames[i]).call is Some by {
        if i < l2.frames.len() - 2 {
            assert(l2.frames[i] == s2l.frames[i]);
        }
    }
    assert forall|i: int| 0 <= i < l2.frames.len() implies ((#[trigger] l2.frames[i]).call matches Some(cc)
        ==> cc.0.capability is None) by {
        if i < l2.frames.len() - 2 {
            assert(l2.frames[i] == s2l.frames[i]);
        }
    }
}

proof fn lemma_step_plain(l: VmV, p: VmV, rec: Seq<CapabilityTraceV>)
    requires
        mirrors(l, p, rec),
        l.frames.len() > 0,
        l.frames.last().pc < l.module.functions[l.frames.last().function as int].code.len(),
        count_check(l.limits, l.count) is Ok,
        !(l.module.functions[l.frames.last().function as int].code[l.frames.last().pc as int] is CapCall),
    ensures
        step(p).1 == step(l).1,
        step(l).1 is Running ==> mirrors(step(l).0, step(p).0, rec),
        step(l).1 is Finished ==> step(p).0.events == step(l).0.events,
        step(l).1 is Host ==> mirrors_waiting(step(l).0, step(p).0, rec) && step(l).1->Host_0 == step(l).0.waiting->Some_0.request,
{
    let top = l.frames.last();
    let f = l.module.functions[top.function as int];
    let e = crate::machine::new_event(f, top.pc);
    let c = count_check(l.limits, l.count)->Ok_0;
    let s1l = VmV { count: c, ..l };
    let s1p = VmV { count: c, ..p };
    let (effl, idxl) = apply(s1l, l.frames.len(), f, top.registers, top.pc, e);
    lemma_step_instr(l);
    let s2l = VmV { replay_index: idxl, ..s1l };
    assert(step(l) == conclude(s2l, top, effl));
    lemma_apply_mirror(s1l, s1p, l.frames.len(), f, top.registers, top.pc, e);
    let s2p = VmV { replay_index: p.replay_index, ..s1p };
    lemma_step_instr(p);
    assert(step(p) == conclude(s2p, top, effl));
    if effl is Fail {
        reveal(conclude);
    } else {
        assert(conclude_pre(s2l, s2p, top, effl, rec));
    }
    match effl {
        Effect::Next { .. } => lemma_conclude_next(s2l, s2p, top, effl, rec),
        Effect::Return { .. } => lemma_conclude_return(s2l, s2p, top, effl, rec),
        Effect::Wait { .. } => lemma_conclude_wait(s2l, s2p, top, effl, rec),
        Effect::Enter { .. } => lemma_conclude_enter(s2l, s2p, top, effl, rec),
        Effect::Fail { .. } => {},
    }
}

proof fn lemma_resume_plain(l: VmV, p: VmV, rec: Seq<CapabilityTraceV>, reply: HostReplyV)
    requires
        mirrors_waiting(l, p, rec),
    ensures
        resume(p, reply).1 == resume(l, reply).1,
        resume(l, reply).1 is Running || resume(l, reply).1 is Finished,
        resume(l, reply).1 is Running ==> mirrors(resume(l, reply).0, resume(p, reply).0, rec),
        resume(l, reply).1 is Finished ==> resume(p, reply).0.events == resume(l, reply).0.events,
{
    reveal(resume);
    let w = l.waiting->Some_0;
    if reply_value(w.request, reply) is Ok {
        let rv = reply_value(w.request, reply)->Ok_0;
        let l2 = resume(l, reply).0;
        assert forall|i: int| 0 <= i < l2.frames.len() - 1 implies (#[trigger] l2.frames[i]).call is Some by {
            assert(l2.frames[i] == l.frames[i]);
        }
        lemma_recorded_push(l.events, crate::digest::sealed(add_change(w.event, w.dst, rv)));
        assert(recorded_calls(l2.events) =~= recorded_calls(l.events));
        assert forall|i: int| 0 <= i < l2.frames.len() implies ((#[trigger] l2.frames[i]).call matches Some(cc)
            ==> cc.0.capability is None) by {
            if i < l2.frames.len() - 1 {
                assert(l2.frames[i] == l.frames[i]);
            } else {
                assert(l2.frames[i].call == l.frames[l.frames.len() - 1].call);
            }
        }
    }
}

proof fn lemma_mirror_plain(
    l: VmV,
    p: VmV,
    rec: Seq<CapabilityTraceV>,
    fpu: spec_fn(HostRequestV) -> HostReplyV,
    world: spec_fn(nat, HostRequestV) -> HostReplyV,
    worldp: spec_fn(nat, HostRequestV) -> HostReplyV,
    k: nat,
    kp: nat,
    fuel: nat,
    r: Result<ValueV, ChronicleErrorV>,
    evs: Seq<TraceEventV>,
)
    requires
        mirrors(l, p, rec),
        run(l, fpu, world, k, fuel) == Some((r, evs)),
        recorded_calls(evs) == rec,
        calls_nan_free(rec),
        mirrorable(r, world),
        rec.len() <= usize::MAX,
        l.frames.len() > 0,
        l.frames.last().pc < l.module.functions[l.frames.last().function as int].code.len(),
        count_check(l.limits, l.count) is Ok,
        !(l.module.functions[l.frames.last().function as int].code[l.frames.last().pc as int] is CapCall),
    ensures
        run(p, fpu, worldp, kp, fuel) == Some((r, evs)),
    decreases fuel, 1nat,
{
    assert(fuel > 0) by {
        reveal(run);
    }
    lemma_run_unfold(l, fpu, world, k, fuel);
    lemma_run_unfold(p, fpu, worldp, kp, fuel);
    lemma_step_plain(l, p, rec);
    match step(l).1 {
        StepV::Running => {
            lemma_mirror_run(step(l).0, step(p).0, rec, fpu, world, worldp, k, kp, (fuel - 1) as nat, r, evs);
        },
        StepV::Host(req) => {
            lemma_mirror_host(step(l).0, step(p).0, rec, fpu, world, worldp, k, kp, fuel, r, evs, req);
        },
        _ => {},
    }
}

proof fn lemma_mirror_host(
    l1: VmV,
    p1: VmV,
    rec: Seq<CapabilityTraceV>,
    fpu: spec_fn(HostRequestV) -> HostReplyV,
    world: spec_fn(nat, HostRequestV) -> HostReplyV,
    worldp: spec_fn(nat, HostRequestV) -> HostReplyV,
    k: nat,
    kp: nat,
    fuel: nat,
    r: Result<ValueV, ChronicleErrorV>,
    evs: Seq<TraceEventV>,
    req: HostRequestV,
)
    requires
        fuel > 0,
        mirrors_waiting(l1, p1, rec),
        req == l1.waiting->Some_0.request,
        ({
            let (s2, st2) = resume(l1, fpu(req));
            match st2 {
                StepV::Finished(r) => Some((r, s2.events)),
                _ => run(s2, fpu, world, k, (fuel - 1) as nat),
            }
        }) == Some((r, evs)),
        recorded_calls(evs) == rec,
        calls_nan_free(rec),
        mirrorable(r, world),
        rec.len() <= usize::MAX,
    ensures
        ({
            let (s2, st2) = resume(p1, fpu(req));
            match st2 {
                StepV::Finished(r) => Some((r, s2.events)),
                _ => run(s2, fpu, worldp, kp, (fuel - 1) as nat),
            }
        }) == Some((r, evs)),
    decreases fuel, 0nat,
{
    let reply = fpu(req);
    lemma_resume_plain(l1, p1, rec, reply);
    if resume(l1, reply).1 is Running {
        lemma_mirror_run(resume(l1, reply).0, resume(p1, reply).0, rec, fpu, world, worldp, k, kp, (fuel - 1) as nat, r, evs);
    }
}

proof fn lemma_apply_cap(s: VmV, depth: nat, f: crate::bytecode::FunctionV, regs: Seq<ValueV>, pc: usize, e: TraceEventV)
    requires
        f.code[pc as int] is CapCall,
    ensures
        apply(s, depth, f, regs, pc, e) == cap_effect(
            s,
            e,
            regs,
            pc,
            f.code[pc as int]->CapCall_dst,
            f.code[pc as int]->CapCall_capability,
            read_regs(regs, f.code[pc as int]->CapCall_args),
        ),
{
    reveal(apply);
}

proof fn lemma_values_eq_refl(xs: Seq<ValueV>)
    requires
        forall|j: int| 0 <= j < xs.len() ==> nan_free(#[trigger] xs[j]),
    ensures
        values_eq(xs, xs),
{
    assert forall|j: int| 0 <= j < xs.len() implies crate::value::value_eq(#[trigger] xs[j], xs[j]) by {
        lemma_value_eq_refl(xs[j]);
    }
}

/// The call that the live machine's next event records is the next recorded call.
proof fn lemma_next_call(
    l: VmV,
    l2: VmV,
    ev: TraceEventV,
    c: CapabilityTraceV,
    rec: Seq<CapabilityTraceV>,
    fpu: spec_fn(HostRequestV) -> HostReplyV,
    world: spec_fn(nat, HostRequestV) -> HostReplyV,
    k: nat,
    fuel: nat,
    r: Result<ValueV, ChronicleErrorV>,
    evs: Seq<TraceEventV>,
)
    requires
        l2.events == l.events.push(ev),
        ev.capability == Some(c),
        run(l2, fpu, world, k, fuel) == Some((r, evs)),
        recorded_calls(evs) == rec,
    ensures
        recorded_calls(l.events).len() < rec.len(),
        rec[recorded_calls(l.events).len() as int] == c,
        recorded_calls(l2.events) == recorded_calls(l.events).push(c),
        extends(recorded_calls(l2.events), rec),
{
    lemma_run_extends(l2, fpu, world, k, fuel);
    lemma_recorded_calls_extends(l2.events, evs);
    lemma_recorded_push(l.events, ev);
    assert(event_calls(ev) =~= seq![c]);
    assert(recorded_calls(l2.events) =~= recorded_calls(l.events).push(c));
    let n = recorded_calls(l.events).len() as int;
    assert(rec.subrange(0, n + 1)[n] == c);
}

proof fn lemma_mirror_cap(
    l: VmV,
    p: VmV,
    rec: Seq<CapabilityTraceV>,
    fpu: spec_fn(HostRequestV) -> HostReplyV,
    world: spec_fn(nat, HostRequestV) -> HostReplyV,
    worldp: spec_fn(nat, HostRequestV) -> HostReplyV,
    k: nat,
    kp: nat,
    fuel: nat,
    r: Result<ValueV, ChronicleErrorV>,
    evs: Seq<TraceEventV>,
)
    requires
        mirrors(l, p, rec),
        run(l, fpu, world, k, fuel) == Some((r, evs)),
        recorded_calls(evs) == rec,
        calls_nan_free(rec),
        mirrorable(r, world),
        rec.len() <= usize::MAX,
        l.frames.len() > 0,
        l.frames.last().pc < l.module.functions[l.frames.last().function as int].code.len(),
        count_check(l.limits, l.count) is Ok,
        l.module.functions[l.frames.last().function as int].code[l.frames.last().pc as int] is CapCall,
    ensures
        run(p, fpu, worldp, kp, fuel) == Some((r, evs)),
    decreases fuel, 1nat,
{
    assert(fuel > 0) by {
        reveal(run);
    }
    lemma_run_unfold(l, fpu, world, k, fuel);
    lemma_run_unfold(p, fpu, worldp, kp, fuel);
    let top = l.frames.last();
    let f = l.module.functions[top.function as int];
    let e = crate::machine::new_event(f, top.pc);
    let c = count_check(l.limits, l.count)->Ok_0;
    let s1l = VmV { count: c, ..l };
    let s1p = VmV { count: c, ..p };
    let ins = f.code[top.pc as int];
    let dst = ins->CapCall_dst;
    let id = ins->CapCall_capability;
    let cargs = read_regs(top.registers, ins->CapCall_args);
    lemma_apply_cap(s1l, l.frames.len(), f, top.registers, top.pc, e);
    lemma_apply_cap(s1p, l.frames.len(), f, top.registers, top.pc, e);
    lemma_step_instr(l);
    lemma_step_instr(p);
    let (effl, idxl) = cap_effect(s1l, e, top.registers, top.pc, dst, id, cargs);
    let (effp, idxp) = cap_effect(s1p, e, top.registers, top.pc, dst, id, cargs);
    let s2l = VmV { replay_index: idxl, ..s1l };
    let s2p = VmV { replay_index: idxp, ..s1p };
    assert(step(l) == conclude(s2l, top, effl));
    assert(step(p) == conclude(s2p, top, effp));
    let n = p.replay_index;
    match lookup(l.capabilities, id) {
        Some(DecisionV::Grant) => {
            lemma_mirror_grant(l, p, rec, fpu, world, worldp, k, kp, fuel, r, evs);
        },
        Some(DecisionV::Mock(mv)) => {
            let cap = CapabilityTraceV { id, decision: CapabilityTraceDecision::Mocked, args: cargs, result: mv };
            reveal(conclude);
            let l2 = step(l).0;
            let ev = crate::digest::sealed(add_change(with_capability(e, cap), dst, mv));
            assert(l2.events == l.events.push(ev));
            lemma_next_call(l, l2, ev, cap, rec, fpu, world, k, (fuel - 1) as nat, r, evs);
            lemma_values_eq_refl(cargs);
            assert(rec[n as int] == cap);
            assert(effp == effl);
            let p2 = step(p).0;
            assert forall|i: int| 0 <= i < l2.frames.len() implies ((#[trigger] l2.frames[i]).call matches Some(cc)
                ==> cc.0.capability is None) by {
                assert(l2.frames[i].call == l.frames[i].call);
            }
            assert forall|i: int| 0 <= i < l2.frames.len() - 1 implies (#[trigger] l2.frames[i]).call is Some by {
                assert(l2.frames[i] == l.frames[i]);
            }
            assert(mirrors(l2, p2, rec));
            lemma_mirror_run(l2, p2, rec, fpu, world, worldp, k, kp, (fuel - 1) as nat, r, evs);
        },
        _ => {
            reveal(conclude);
            assert(false);
        },
    }
}

proof fn lemma_mirror_grant(
    l: VmV,
    p: VmV,
    rec: Seq<CapabilityTraceV>,
    fpu: spec_fn(HostRequestV) -> HostReplyV,
    world: spec_fn(nat, HostRequestV) -> HostReplyV,
    worldp: spec_fn(nat, HostRequestV) -> HostReplyV,
    k: nat,
    kp: nat,
    fuel: nat,
    r: Result<ValueV, ChronicleErrorV>,
    evs: Seq<TraceEventV>,
)
    requires
        mirrors(l, p, rec),
        run(l, fpu, world, k, fuel) == Some((r, evs)),
        recorded_calls(evs) == rec,
        calls_nan_free(rec),
        mirrorable(r, world),
        rec.len() <= usize::MAX,
        fuel > 0,
        l.frames.len() > 0,
        l.frames.last().pc < l.module.functions[l.frames.last().function as int].code.len(),
        count_check(l.limits, l.count) is Ok,
        l.module.functions[l.frames.last().function as int].code[l.frames.last().pc as int] is CapCall,
        ({
            let top = l.frames.last();
            let ins = l.module.functions[top.function as int].code[top.pc as int];
            &&& lookup(l.capabilities, ins->CapCall_capability) == Some(DecisionV::Grant)
        }),
    ensures
        run(p, fpu, worldp, kp, fuel) == Some((r, evs)),
    decreases fuel, 0nat,
{
    lemma_run_unfold(l, fpu, world, k, fuel);
    lemma_run_unfold(p, fpu, worldp, kp, fuel);
    let top = l.frames.last();
    let f = l.module.functions[top.function as int];
    let e = crate::machine::new_event(f, top.pc);
    let c = count_check(l.limits, l.count)->Ok_0;
    let s1l = VmV { count: c, ..l };
    let s1p = VmV { count: c, ..p };
    let ins = f.code[top.pc as int];
    let dst = ins->CapCall_dst;
    let id = ins->CapCall_capability;
    let cargs = read_regs(top.registers, ins->CapCall_args);
    let req = capability_request(id, cargs);
    lemma_apply_cap(s1l, l.frames.len(), f, top.registers, top.pc, e);
    lemma_apply_cap(s1p, l.frames.len(), f, top.registers, top.pc, e);
    lemma_step_instr(l);
    lemma_step_instr(p);
    let (effp, idxp) = cap_effect(s1p, e, top.registers, top.pc, dst, id, cargs);
    let s2l = VmV { replay_index: l.replay_index, ..s1l };
    let s2p = VmV { replay_index: idxp, ..s1p };
    let effl = Effect::Wait { event: e, dst, request: req, args: cargs };
    assert(step(l) == conclude(s2l, top, effl));
    assert(step(p) == conclude(s2p, top, effp));
    reveal(conclude);
    let l1 = step(l).0;
    assert(step(l).1 == StepV::Host(req));
    assert(!is_float_request(req));
    let reply = world(k, req);
    reveal(resume);
    if reply_value(req, reply) is Err {
        if r is Err {
            assert(reply_value(req, world(k, req)) is Ok);
        }
        assert(false);
    }
    let rv = reply_value(req, reply)->Ok_0;
    assert(request_capability(req) == Some(id));
    let cap = CapabilityTraceV { id, decision: CapabilityTraceDecision::Granted, args: cargs, result: rv };
    let l2 = resume(l1, reply).0;
    let ev = crate::digest::sealed(add_change(with_capability(e, cap), dst, rv));
    assert(l2.events == l.events.push(ev));
    assert(run(l, fpu, world, k, fuel) == run(l2, fpu, world, k + 1, (fuel - 1) as nat));
    lemma_next_call(l, l2, ev, cap, rec, fpu, world, k + 1, (fuel - 1) as nat, r, evs);
    lemma_values_eq_refl(cargs);
    let n = p.replay_index;
    assert(rec[n as int] == cap);
    let p2 = step(p).0;
    assert(step(p).1 == StepV::Running);
    assert forall|i: int| 0 <= i < l2.frames.len() implies ((#[trigger] l2.frames[i]).call matches Some(cc)
        ==> cc.0.capability is None) by {
        assert(l2.frames[i].call == l.frames[i].call);
    }
    assert forall|i: int| 0 <= i < l2.frames.len() - 1 implies (#[trigger] l2.frames[i]).call is Some by {
        assert(l2.frames[i] == l.frames[i]);
    }
    assert(p2.frames == l2.frames);
    assert(mirrors(l2, p2, rec));
    lemma_mirror_run(l2, p2, rec, fpu, world, worldp, k + 1, kp, (fuel - 1) as nat, r, evs);
}


/// Every value an event records (register writes, capability arguments and results) is
/// free of NaN.
pub open spec fn event_nan_free(e: TraceEventV) -> bool {
    &&& forall|i: int| 0 <= i < e.register_changes.len() ==> nan_free(#[trigger] e.register_changes[i].value)
    &&& e.capability matches Some(c) ==> (nan_free(c.result) && forall|j: int|
        0 <= j < c.args.len() ==> nan_free(#[trigger] c.args[j]))
}

pub open spec fn events_nan_free(evs: Seq<TraceEventV>) -> bool {
    forall|i: int| 0 <= i < evs.len() ==> event_nan_free(#[trigger] evs[i])
}

proof fn lemma_recorded_nan_free(evs: Seq<TraceEventV>)
    requires
        events_nan_free(evs),
    ensures
        calls_nan_free(recorded_calls(evs)),
        recorded_calls(evs).len() <= evs.len(),
    decreases evs.len(),
{
    if evs.len() > 0 {
        let pre = evs.drop_last();
        assert forall|i: int| 0 <= i < pre.len() implies event_nan_free(#[trigger] pre[i]) by {
            assert(pre[i] == evs[i]);
        }
        lemma_recorded_nan_free(pre);
        assert(event_nan_free(evs[evs.len() - 1]));
        let r = recorded_calls(evs);
        let rp = recorded_calls(pre);
        assert forall|i: int, j: int| 0 <= i < r.len() && 0 <= j < r[i].args.len() implies nan_free(#[trigger] r[i].args[j]) by {
            if i < rp.len() {
                assert(r[i] == rp[i]);
            }
        }
    }
}

proof fn lemma_events_eq_refl(evs: Seq<TraceEventV>)
    requires
        events_nan_free(evs),
    ensures
        crate::replay::events_eq(evs, evs),
{
    assert forall|i: int| 0 <= i < evs.len() implies crate::replay::event_eq(#[trigger] evs[i], evs[i]) by {
        let e = evs[i];
        assert(event_nan_free(e));
        assert forall|j: int| 0 <= j < e.register_changes.len() implies crate::replay::change_eq(
            #[trigger] e.register_changes[j],
            e.register_changes[j],
        ) by {
            lemma_value_eq_refl(e.register_changes[j].value);
        }
        if let Some(c) = e.capability {
            lemma_value_eq_refl(c.result);
            lemma_values_eq_refl(c.args);
        }
    }
}

/// The live machine of the laws: `m` with the capability decisions `table` and the limits
/// `limits`, as [`crate::vm::Vm::new`] and [`crate::vm::Vm::with_limits`] make it.
pub open spec fn live_machine(m: ModuleV, table: Seq<(Seq<char>, DecisionV)>, limits: VmLimits) -> VmV {
    VmV { limits, ..fresh(m, table, Seq::empty(), true) }
}

/// The machine that replays `events` of a run of `m` under `limits`, as
/// [`crate::vm::Vm::for_replay`] makes it.
pub open spec fn replay_machine(m: ModuleV, limits: VmLimits, events: Seq<TraceEventV>) -> VmV {
    VmV { limits, ..fresh(m, all_granted(m.capabilities), recorded_calls(events), false) }
}

/// Replay under the recorded limits reproduces a run, and the replay check accepts it.
///
/// Let a live run of `entry` under `limits` answer floating-point requests with `fpu` and the
/// `k`-th request to the outside world with `world(k, ..)`, and end with `r` after recording
/// `events`, no recorded value being a NaN. Let `r` be a result, or a failure that no policy
/// decision caused in a world that answers every capability request with a reply of its
/// kind (a failure from the instruction budget or another limit among them). Then the replay
/// of its trace, under the same limits, with the same floating-point unit and any outside
/// world at all, starts, ends with the same `r` after recording the very same events, and
/// the replay check reports every event checked, the result (none for a failure) and the
/// trace's checksum.
pub proof fn trace_replays(
    m: ModuleV,
    table: Seq<(Seq<char>, DecisionV)>,
    limits: VmLimits,
    entry: Seq<char>,
    fpu: spec_fn(HostRequestV) -> HostReplyV,
    world: spec_fn(nat, HostRequestV) -> HostReplyV,
    any_world: spec_fn(nat, HostRequestV) -> HostReplyV,
    fuel: nat,
    r: Result<ValueV, ChronicleErrorV>,
    events: Seq<TraceEventV>,
)
    requires
        start(live_machine(m, table, limits), entry, true).1 is Ok,
        run(start(live_machine(m, table, limits), entry, true).0, fpu, world, 0, fuel) == Some((r, events)),
        events_nan_free(events),
        r matches Ok(v) ==> nan_free(v),
        mirrorable(r, world),
        events.len() <= usize::MAX,
    ensures
        start(replay_machine(m, limits, events), entry, false).1 is Ok,
        run(start(replay_machine(m, limits, events), entry, false).0, fpu, any_world, 0, fuel) == Some((r, events)),
        crate::replay::replay_verdict(crate::replay::trace_record(m, entry, limits, r, events), r, events)
            == Ok::<crate::replay::ReplayReportV, ChronicleErrorV>(crate::replay::ReplayReportV {
            events_checked: events.len() as usize,
            result: match r {
                Ok(v) => Some(v),
                Err(_) => None,
            },
            trace_checksum: crate::replay::trace_record(m, entry, limits, r, events).checksum,
        }),
{
    let rec = recorded_calls(events);
    lemma_recorded_nan_free(events);
    let lm = live_machine(m, table, limits);
    let pm = replay_machine(m, limits, events);
    let l0 = start(lm, entry, true).0;
    let p0 = start(pm, entry, false).0;
    let fi = crate::bytecode::find_export(m.exports, entry)->Some_0;
    assert(recorded_calls(Seq::<TraceEventV>::empty()) =~= Seq::<CapabilityTraceV>::empty());
    assert(extends(Seq::<CapabilityTraceV>::empty(), rec)) by {
        assert(rec.subrange(0, 0) =~= Seq::<CapabilityTraceV>::empty());
    }
    assert(calls_plain(l0.frames));
    assert(callers_waiting(l0.frames));
    assert(mirrors(l0, p0, rec));
    lemma_mirror_run(l0, p0, rec, fpu, world, any_world, 0, 0, fuel, r, events);
    lemma_events_eq_refl(events);
    if let Ok(v) = r {
        lemma_value_eq_refl(v);
    }
}

/// A replaying machine hands its host only floating-point work: whatever it waits for, and
/// whatever its next step asks, is arithmetic or a comparison, never a capability.
pub proof fn replay_asks_only_fpu(s: VmV)
    requires
        !s.live,
        s.waiting matches Some(w) ==> is_float_request(w.request),
    ensures
        step(s).1 matches StepV::Host(r) ==> is_float_request(r),
        step(s).0.waiting matches Some(w) ==> is_float_request(w.request),
{
    reveal(step);
    reveal(conclude);
    if s.waiting is None && s.frames.len() > 0 {
        let top = s.frames.last();
        let f = s.module.functions[top.function as int];
        if top.pc < f.code.len() && count_check(s.limits, s.count) is Ok {
            let e = crate::machine::new_event(f, top.pc);
            let s1 = VmV { count: count_check(s.limits, s.count)->Ok_0, ..s };
            if f.code[top.pc as int] is CapCall {
                lemma_apply_cap(s1, s.frames.len(), f, top.registers, top.pc, e);
            } else {
                reveal(apply);
            }
        }
    }
}

/// A run never spends more than its instruction budget: a machine within its budget stays
/// within it after a step.
pub proof fn step_keeps_budget(s: VmV, max: usize)
    requires
        s.limits.max_instructions == Some(max),
        s.count <= max,
    ensures
        step(s).0.count <= max,
{
    reveal(step);
    reveal(conclude);
}

/// The number of frames never exceeds the call depth limit: a machine within the limit stays
/// within it after a step.
pub proof fn step_keeps_depth(s: VmV, max: usize)
    requires
        s.limits.max_call_depth == Some(max),
        s.frames.len() <= max,
    ensures
        step(s).0.frames.len() <= max,
{
    reveal(step);
    reveal(conclude);
    if s.waiting is None && s.frames.len() > 0 {
        let top = s.frames.last();
        let f = s.module.functions[top.function as int];
        if top.pc < f.code.len() && count_check(s.limits, s.count) is Ok {
            reveal(apply);
        }
    }
}

/// A machine exists exactly for a module that passes the verifier and whose every declared
/// capability the policy grants or mocks, and the verifier's verdict comes first; a grant holds only for a capability the host
/// registers with exactly the declared signature.
pub proof fn admission(host: Seq<CapabilityDeclV>, m: ModuleV, policy: Seq<(Seq<char>, DecisionV)>)
    ensures
        verify_module(m) matches Err(e) ==> crate::machine::admitted(host, m, policy) == Err::<
            Seq<(Seq<char>, DecisionV)>,
            ChronicleErrorV,
        >(ChronicleErrorV::Verify(e)),
        crate::machine::admitted(host, m, policy) is Ok <==> (verify_module(m) is Ok && forall|i: int|
            0 <= i < m.capabilities.len() ==> crate::policy::is_success_status(
                #[trigger] crate::machine::negotiated(host, policy, m)[i].status,
            )),
        forall|i: int| 0 <= i < m.capabilities.len() ==> (#[trigger] crate::machine::negotiated(host, policy, m)[i].status
            == crate::policy::NegotiationStatus::Granted <==> (
                crate::policy::lookup(policy, m.capabilities[i].id) == Some(DecisionV::Grant)
                && (crate::policy::registered(host, m.capabilities[i].id) matches Some(h)
                && crate::policy::same_signature(h, m.capabilities[i])))),
{
    let es = crate::machine::negotiated(host, policy, m);
    crate::policy::lemma_failure_iff(es);
}


/// What a machine is set up with: the module, the capability decisions, the limits, the
/// mode, the recorded calls, and (in a live run, which consults no recording) the position
/// in them.
pub open spec fn same_setup(s: VmV, t: VmV) -> bool {
    &&& s.module == t.module
    &&& s.capabilities == t.capabilities
    &&& s.limits == t.limits
    &&& s.live == t.live
    &&& s.replay == t.replay
    &&& (s.live ==> s.replay_index == t.replay_index)
}

/// A step and a reply keep a machine's setup: its module, decisions, limits, mode and
/// recorded calls, and in a live run the position in the recording.
pub proof fn steps_keep_setup(s: VmV, reply: HostReplyV)
    ensures
        same_setup(step(s).0, s),
        same_setup(resume(s, reply).0, s),
{
    reveal(step);
    reveal(conclude);
    reveal(resume);
    if s.waiting is None && s.frames.len() > 0 {
        let top = s.frames.last();
        let f = s.module.functions[top.function as int];
        if top.pc < f.code.len() && count_check(s.limits, s.count) is Ok {
            reveal(apply);
        }
    }
}

/// Runs are repeatable: starting an entry resets the instruction count, the frames and the
/// events, so two machines with the same setup (say a machine after an earlier run and a
/// fresh one) start alike and, given the same answers from the host, end alike with the same
/// events.
pub proof fn runs_are_repeatable(
    s: VmV,
    t: VmV,
    entry: Seq<char>,
    fpu: spec_fn(HostRequestV) -> HostReplyV,
    world: spec_fn(nat, HostRequestV) -> HostReplyV,
    fuel: nat,
)
    requires
        same_setup(s, t),
        s.live,
    ensures
        start(s, entry, true) == start(t, entry, true),
        run(start(s, entry, true).0, fpu, world, 0, fuel) == run(start(t, entry, true).0, fpu, world, 0, fuel),
{
}

/// A trace records exactly one of a result and an error: the result of a run that returned,
/// the error text of one that failed.
pub proof fn trace_records_one_outcome(
    m: ModuleV,
    entry: Seq<char>,
    limits: VmLimits,
    r: Result<ValueV, ChronicleErrorV>,
    events: Seq<TraceEventV>,
)
    ensures
        ({
            let t = crate::replay::trace_record(m, entry, limits, r, events);
            &&& t.result is Some <==> t.error is None
            &&& r matches Ok(v) ==> t.result == Some(v)
            &&& r matches Err(e) ==> t.error == Some(crate::error::error_text(e))
            &&& t.events == events && t.module == m && t.entry == entry && t.limits == limits
        }),
{
}

/// `u` with an instruction budget of `n`.
pub open spec fn with_budget(u: VmV, n: usize) -> VmV {
    VmV { limits: VmLimits { max_instructions: Some(n), ..u.limits }, ..u }
}

proof fn lemma_step_budget(u: VmV, n: usize, reply: HostReplyV)
    requires
        u.limits.max_instructions is None,
        u.count < n,
    ensures
        step(with_budget(u, n)) == (with_budget(step(u).0, n), step(u).1),
        step(u).0.count <= u.count + 1,
        step(u).0.limits == u.limits,
        resume(with_budget(u, n), reply) == (with_budget(resume(u, reply).0, n), resume(u, reply).1),
        resume(u, reply).0.count == u.count,
        resume(u, reply).0.limits == u.limits,
{
    let l = with_budget(u, n);
    reveal(step);
    reveal(conclude);
    reveal(resume);
    if u.waiting is None && u.frames.len() > 0 {
        let top = u.frames.last();
        let f = u.module.functions[top.function as int];
        if top.pc < f.code.len() {
            let e = crate::machine::new_event(f, top.pc);
            let c = (u.count + 1) as usize;
            assert(count_check(u.limits, u.count) == Ok::<usize, ChronicleErrorV>(c));
            assert(count_check(l.limits, l.count) == Ok::<usize, ChronicleErrorV>(c));
            let s1u = VmV { count: c, ..u };
            let s1l = VmV { count: c, ..l };
            reveal(apply);
            assert(apply(s1l, u.frames.len(), f, top.registers, top.pc, e) == apply(s1u, u.frames.len(), f, top.registers, top.pc, e));
        }
    }
}

/// An instruction budget that a run does not reach changes nothing: if a run without a
/// budget takes at most `fuel` steps, each running at most one instruction, and its count
/// plus `fuel` stays within `n`, then the same run with a budget of `n` ends alike, with the
/// same events.
pub proof fn unreached_budget_changes_nothing(
    u: VmV,
    n: usize,
    fpu: spec_fn(HostRequestV) -> HostReplyV,
    world: spec_fn(nat, HostRequestV) -> HostReplyV,
    k: nat,
    fuel: nat,
)
    requires
        u.limits.max_instructions is None,
        u.count + fuel <= n,
    ensures
        run(with_budget(u, n), fpu, world, k, fuel) == run(u, fpu, world, k, fuel),
    decreases fuel,
{
    if fuel > 0 {
        let l = with_budget(u, n);
        lemma_run_unfold(u, fpu, world, k, fuel);
        lemma_run_unfold(l, fpu, world, k, fuel);
        let (u1, st) = step(u);
        lemma_step_budget(u, n, HostReplyV::Done);
        match st {
            StepV::Running => {
                unreached_budget_changes_nothing(u1, n, fpu, world, k, (fuel - 1) as nat);
            },
            StepV::Host(req) => {
                let (reply, k2) = host_reply(req, fpu, world, k);
                lemma_step_budget(u, n, reply);
                lemma_resume_budget(u1, n, reply);
                let (u2, st2) = resume(u1, reply);
                match st2 {
                    StepV::Finished(_) => {},
                    _ => {
                        unreached_budget_changes_nothing(u2, n, fpu, world, k2, (fuel - 1) as nat);
                    },
                }
            },
            _ => {},
        }
    } else {
        reveal(run);
    }
}

proof fn lemma_resume_budget(u: VmV, n: usize, reply: HostReplyV)
    ensures
        resume(with_budget(u, n), reply) == (with_budget(resume(u, reply).0, n), resume(u, reply).1),
        resume(u, reply).0.count == u.count,
        resume(u, reply).0.limits == u.limits,
{
    reveal(resume);
}

/// A run that reaches its instruction budget ends there: a machine that has run `n`
/// instructions under a budget of `n` fails its next instruction with exactly the budget
/// error, recording the failed instruction.
pub proof fn exhausted_budget_fails(s: VmV, n: usize)
    requires
        s.limits.max_instructions == Some(n),
        s.count == n,
        s.waiting is None,
        s.frames.len() > 0,
        s.frames.last().pc < s.module.functions[s.frames.last().function as int].code.len(),
    ensures
        step(s).1 == StepV::Finished(Err(crate::machine::resource("instruction budget exceeded max "@ + crate::text::decimal(n as nat)))),
        step(s).0.events.len() > s.events.len(),
{
    reveal(step);
}

/// The limits refuse what exceeds them: within its instruction budget, a machine whose next
/// instruction calls a function when the call depth is already at its limit, or calls a
/// function with more registers than allowed, or builds an array with more items than
/// allowed, fails that instruction with a resource-limit error and ends the run.
pub proof fn limits_refuse_excess(s: VmV)
    requires
        s.waiting is None,
        s.frames.len() > 0,
        s.frames.last().pc < s.module.functions[s.frames.last().function as int].code.len(),
        count_check(s.limits, s.count) is Ok,
    ensures
        ({
            let f = s.module.functions[s.frames.last().function as int];
            let ins = f.code[s.frames.last().pc as int];
            let over = match ins {
                InstructionV::Call { function, .. } => find_function(s.module.functions, function) matches Some(ci)
                    && enter_check(s.limits, s.frames.len() as nat, s.module.functions[ci]) is Err,
                InstructionV::ArrayNew { items, .. } => s.limits.max_array_items matches Some(max) && items.len() > max,
                _ => false,
            };
            over ==> step(s).1 matches StepV::Finished(Err(crate::error::ChronicleErrorV::ResourceLimit(_)))
        }),
        s.limits.max_call_depth matches Some(max) && s.frames.len() >= max ==> forall|f: crate::bytecode::FunctionV|
            #[trigger] enter_check(s.limits, s.frames.len() as nat, f) is Err,
{
    reveal(step);
    reveal(conclude);
    reveal(apply);
}

} // verus!
