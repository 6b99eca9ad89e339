use vstd::prelude::*;
use crate::bytecode::opt_string_view;
use crate::codec::{
    BinaryModuleWriter, all_ok, concat_map, enc_line, enc_num, enc_opt_str, enc_str, enc_usize, enc_value,
    enc_values, fits, lemma_all_ok_prefix, lemma_all_ok_prefix_fails, lemma_concat_map_push, line_ok,
    opt_str_ok, str_ok, u64_le, usize_ok, value_ok, values_ok,
};
use crate::trace::{
    CapabilityTrace, CapabilityTraceDecision, CapabilityTraceV, RegisterChange, RegisterChangeV, TraceEvent,
    TraceEventV, changes_view, events_view, opt_cap_trace_view, opt_value_view,
};
use crate::value::{Value, ValueV, lemma_values_view, values_view};

verus! {

/// The FNV-1a offset basis.
pub open spec fn fnv_offset() -> u64 {
    0xcbf2_9ce4_8422_2325u64
}

/// The FNV-1a prime.
pub open spec fn fnv_prime() -> u64 {
    0x0000_0100_0000_01b3u64
}

/// One FNV-1a step: xor in the byte, then multiply modulo 2^64.
pub open spec fn fnv_step(h: u64, b: u8) -> u64 {
    (h ^ (b as u64)).wrapping_mul(fnv_prime())
}

/// The FNV-1a hash of `b`, starting from `h`.
pub open spec fn fnv(h: u64, b: Seq<u8>) -> u64
    decreases b.len(),
{
    if b.len() == 0 {
        h
    } else {
        fnv_step(fnv(h, b.drop_last()), b.last())
    }
}

/// The FNV-1a hash of a byte string.
pub fn fnv_hash(b: &Vec<u8>) -> (h: u64)
    ensures
        h == fnv(fnv_offset(), b@),
{
    let mut h: u64 = 0xcbf2_9ce4_8422_2325u64;
    let mut i: usize = 0;
    while i < b.len()
        invariant
            i <= b.len(),
            h == fnv(fnv_offset(), b@.subrange(0, i as int)),
        decreases b.len() - i,
    {
        proof {
            let s = b@.subrange(0, i + 1);
            assert(s.drop_last() =~= b@.subrange(0, i as int));
        }
        h = (h ^ (b[i] as u64)).wrapping_mul(0x0000_0100_0000_01b3u64);
        i = i + 1;
    }
    assert(b@.subrange(0, i as int) =~= b@);
    h
}

pub open spec fn decision_tag(d: CapabilityTraceDecision) -> u8 {
    match d {
        CapabilityTraceDecision::Granted => 0,
        CapabilityTraceDecision::Mocked => 1,
        CapabilityTraceDecision::Replayed => 2,
    }
}

pub open spec fn enc_change(c: RegisterChangeV) -> Seq<u8> {
    enc_usize(c.register) + enc_value(c.value)
}

pub open spec fn change_ok(c: RegisterChangeV) -> bool {
    usize_ok(c.register) && value_ok(c.value)
}

pub open spec fn enc_cap_trace(c: CapabilityTraceV) -> Seq<u8> {
    enc_str(c.id) + seq![decision_tag(c.decision)] + enc_num(c.args.len() as int) + enc_values(c.args) + enc_value(
        c.result,
    )
}

pub open spec fn cap_trace_ok(c: CapabilityTraceV) -> bool {
    str_ok(c.id) && fits(c.args.len() as int) && values_ok(c.args) && value_ok(c.result)
}

pub open spec fn enc_opt_cap(c: Option<CapabilityTraceV>) -> Seq<u8> {
    match c {
        Some(c) => seq![1u8] + enc_cap_trace(c),
        None => seq![0u8],
    }
}

pub open spec fn opt_cap_ok(c: Option<CapabilityTraceV>) -> bool {
    match c {
        Some(c) => cap_trace_ok(c),
        None => true,
    }
}

pub open spec fn enc_event_head(e: TraceEventV) -> Seq<u8> {
    enc_str(e.function) + enc_usize(e.pc) + enc_line(e.source_line) + enc_str(e.opcode)
}

pub open spec fn enc_changes(cs: Seq<RegisterChangeV>) -> Seq<u8> {
    enc_num(cs.len() as int) + concat_map(cs, |c: RegisterChangeV| enc_change(c))
}

pub open spec fn enc_event_tail(e: TraceEventV) -> Seq<u8> {
    enc_opt_cap(e.capability) + enc_opt_str(e.error) + u64_le(e.checksum)
}

/// The canonical bytes of a trace event, the input of its checksum.
pub open spec fn enc_event(e: TraceEventV) -> Seq<u8> {
    enc_event_head(e) + enc_changes(e.register_changes) + enc_event_tail(e)
}

/// Whether every count and string of an event fits the canonical encoding.
pub open spec fn event_ok(e: TraceEventV) -> bool {
    &&& str_ok(e.function) && usize_ok(e.pc) && line_ok(e.source_line) && str_ok(e.opcode)
    &&& fits(e.register_changes.len() as int)
    &&& all_ok(e.register_changes, |c: RegisterChangeV| change_ok(c))
    &&& opt_cap_ok(e.capability) && opt_str_ok(e.error)
}

/// The checksum of the bytes of a value whose encoding may fail: the hash of the bytes, or
/// of no bytes at all when the encoding does not exist.
pub open spec fn digest(ok: bool, bytes: Seq<u8>) -> u64 {
    if ok {
        fnv(fnv_offset(), bytes)
    } else {
        fnv(fnv_offset(), Seq::empty())
    }
}

/// The checksum of an event.
pub open spec fn event_digest(e: TraceEventV) -> u64 {
    digest(event_ok(e), enc_event(e))
}

/// The event with its checksum set to the checksum of the event with a zero checksum.
pub open spec fn sealed(e: TraceEventV) -> TraceEventV {
    TraceEventV { checksum: event_digest(TraceEventV { checksum: 0, ..e }), ..e }
}

pub open spec fn enc_opt_value(v: Option<ValueV>) -> Seq<u8> {
    match v {
        Some(v) => seq![1u8] + enc_value(v),
        None => seq![0u8],
    }
}

pub open spec fn opt_value_ok(v: Option<ValueV>) -> bool {
    match v {
        Some(v) => value_ok(v),
        None => true,
    }
}

/// The canonical bytes of the replay-relevant part of a trace: events, result and error.
pub open spec fn enc_trace(events: Seq<TraceEventV>, result: Option<ValueV>, error: Option<Seq<char>>) -> Seq<u8> {
    enc_num(events.len() as int) + concat_map(events, |e: TraceEventV| enc_event(e)) + enc_opt_value(result)
        + enc_opt_str(error)
}

pub open spec fn trace_ok(events: Seq<TraceEventV>, result: Option<ValueV>, error: Option<Seq<char>>) -> bool {
    fits(events.len() as int) && all_ok(events, |e: TraceEventV| event_ok(e)) && opt_value_ok(result)
        && opt_str_ok(error)
}

/// The checksum of a run: its events, its result and its error text.
pub open spec fn trace_digest(events: Seq<TraceEventV>, result: Option<ValueV>, error: Option<Seq<char>>) -> u64 {
    digest(trace_ok(events, result, error), enc_trace(events, result, error))
}

spec fn wrote_ok(r: Result<(), crate::error::ChronicleError>, ok: bool, before: Seq<u8>, after: Seq<u8>, enc: Seq<u8>) -> bool {
    &&& (r is Ok <==> ok)
    &&& r is Ok ==> after == before + enc
}

fn write_change(w: &mut BinaryModuleWriter, c: &RegisterChange) -> (r: Result<(), crate::error::ChronicleError>)
    ensures
        wrote_ok(r, change_ok(c@), old(w).bytes@, final(w).bytes@, enc_change(c@)),
{
    let r = w.write_usize(c.register);
    if r.is_err() {
        return r;
    }
    let r = w.write_value(&c.value);
    if r.is_err() {
        return r;
    }
    assert(w.bytes@ =~= old(w).bytes@ + enc_change(c@));
    Ok(())
}

fn write_cap_trace(w: &mut BinaryModuleWriter, c: &CapabilityTrace) -> (r: Result<(), crate::error::ChronicleError>)
    ensures
        wrote_ok(r, cap_trace_ok(c@), old(w).bytes@, final(w).bytes@, enc_cap_trace(c@)),
{
    let r = w.write_string(c.id.as_str());
    if r.is_err() {
        return r;
    }
    let tag: u8 = match c.decision {
        CapabilityTraceDecision::Granted => 0,
        CapabilityTraceDecision::Mocked => 1,
        CapabilityTraceDecision::Replayed => 2,
    };
    w.write_u8(tag);
    proof {
        lemma_values_view(c.args@);
    }
    let r = w.write_len(c.args.len());
    if r.is_err() {
        return r;
    }
    let r = w.write_values(&c.args);
    if r.is_err() {
        return r;
    }
    let r = w.write_value(&c.result);
    if r.is_err() {
        return r;
    }
    assert(w.bytes@ =~= old(w).bytes@ + enc_cap_trace(c@));
    Ok(())
}

fn write_line(w: &mut BinaryModuleWriter, l: Option<usize>) -> (r: Result<(), crate::error::ChronicleError>)
    ensures
        wrote_ok(r, line_ok(l), old(w).bytes@, final(w).bytes@, enc_line(l)),
{
    match l {
        Some(line) => {
            w.write_u8(1);
            let r = w.write_usize(line);
            if r.is_err() {
                return r;
            }
        },
        None => w.write_u8(0),
    }
    assert(w.bytes@ =~= old(w).bytes@ + enc_line(l));
    Ok(())
}

fn write_event_head(w: &mut BinaryModuleWriter, e: &TraceEvent) -> (r: Result<(), crate::error::ChronicleError>)
    ensures
        wrote_ok(
            r,
            str_ok(e@.function) && usize_ok(e@.pc) && line_ok(e@.source_line) && str_ok(e@.opcode),
            old(w).bytes@,
            final(w).bytes@,
            enc_event_head(e@),
        ),
{
    let r = w.write_string(e.function.as_str());
    if r.is_err() {
        return r;
    }
    let r = w.write_usize(e.pc);
    if r.is_err() {
        return r;
    }
    let r = write_line(w, e.source_line);
    if r.is_err() {
        return r;
    }
    let r = w.write_string(e.opcode.as_str());
    if r.is_err() {
        return r;
    }
    assert(w.bytes@ =~= old(w).bytes@ + enc_event_head(e@));
    Ok(())
}

fn write_changes(w: &mut BinaryModuleWriter, changes: &Vec<RegisterChange>) -> (r: Result<(), crate::error::ChronicleError>)
    ensures
        wrote_ok(
            r,
            fits(changes.len() as int) && all_ok(changes_view(changes@), |c: RegisterChangeV| change_ok(c)),
            old(w).bytes@,
            final(w).bytes@,
            enc_changes(changes_view(changes@)),
        ),
{
    let r = w.write_len(changes.len());
    if r.is_err() {
        return r;
    }
    let ghost start = w.bytes@;
    let ghost cs = changes_view(changes@);
    let mut i: usize = 0;
    while i < changes.len()
        invariant
            cs == changes_view(changes@),
            cs.len() == changes.len(),
            i <= changes.len(),
            all_ok(cs.subrange(0, i as int), |c: RegisterChangeV| change_ok(c)),
            w.bytes@ == start + concat_map(cs.subrange(0, i as int), |c: RegisterChangeV| enc_change(c)),
        decreases changes.len() - i,
    {
        assert(cs[i as int] == changes@[i as int]@);
        let r = write_change(w, &changes[i]);
        if r.is_err() {
            proof {
                lemma_all_ok_prefix_fails(cs, i as int, |c: RegisterChangeV| change_ok(c));
            }
            return r;
        }
        proof {
            lemma_all_ok_prefix(cs, i as int, |c: RegisterChangeV| change_ok(c));
            assert(cs.subrange(0, i + 1) =~= cs.subrange(0, i as int).push(cs[i as int]));
            lemma_concat_map_push(cs.subrange(0, i as int), cs[i as int], |c: RegisterChangeV| enc_change(c));
        }
        i = i + 1;
        assert(w.bytes@ =~= start + concat_map(cs.subrange(0, i as int), |c: RegisterChangeV| enc_change(c)));
    }
    assert(cs.subrange(0, i as int) =~= cs);
    assert(w.bytes@ =~= old(w).bytes@ + enc_changes(cs));
    Ok(())
}

fn write_event_tail(w: &mut BinaryModuleWriter, e: &TraceEvent) -> (r: Result<(), crate::error::ChronicleError>)
    ensures
        wrote_ok(r, opt_cap_ok(e@.capability) && opt_str_ok(e@.error), old(w).bytes@, final(w).bytes@, enc_event_tail(e@)),
{
    match &e.capability {
        Some(c) => {
            w.write_u8(1);
            let r = write_cap_trace(w, c);
            if r.is_err() {
                return r;
            }
        },
        None => w.write_u8(0),
    }
    assert(w.bytes@ =~= old(w).bytes@ + enc_opt_cap(e@.capability));
    let r = w.write_optional_string(&e.error);
    if r.is_err() {
        return r;
    }
    w.write_u64(e.checksum);
    assert(w.bytes@ =~= old(w).bytes@ + enc_event_tail(e@));
    Ok(())
}

fn write_event(w: &mut BinaryModuleWriter, e: &TraceEvent) -> (r: Result<(), crate::error::ChronicleError>)
    ensures
        wrote_ok(r, event_ok(e@), old(w).bytes@, final(w).bytes@, enc_event(e@)),
{
    let r = write_event_head(w, e);
    if r.is_err() {
        return r;
    }
    let r = write_changes(w, &e.register_changes);
    if r.is_err() {
        return r;
    }
    let r = write_event_tail(w, e);
    if r.is_err() {
        return r;
    }
    assert(w.bytes@ =~= old(w).bytes@ + enc_event(e@));
    Ok(())
}

/// The checksum of an event, over its canonical bytes.
pub fn event_checksum(e: &TraceEvent) -> (h: u64)
    ensures
        h == event_digest(e@),
{
    let mut w = BinaryModuleWriter { bytes: Vec::new() };
    let r = write_event(&mut w, e);
    if r.is_err() {
        let empty: Vec<u8> = Vec::new();
        return fnv_hash(&empty);
    }
    assert(w.bytes@ =~= enc_event(e@));
    fnv_hash(&w.bytes)
}

/// Sets the checksum of an event to the checksum of the event with a zero checksum.
pub fn seal_event(e: &mut TraceEvent)
    ensures
        final(e)@ == sealed(old(e)@),
{
    e.checksum = 0;
    let h = event_checksum(e);
    e.checksum = h;
}

/// The checksum of a run's events, result and error text.
pub fn trace_checksum(events: &Vec<TraceEvent>, result: &Option<Value>, error: &Option<String>) -> (h: u64)
    ensures
        h == trace_digest(events_view(events@), opt_value_view(*result), opt_string_view(*error)),
{
    let ghost evs = events_view(events@);
    let mut w = BinaryModuleWriter { bytes: Vec::new() };
    let r = w.write_len(events.len());
    if r.is_err() {
        let empty: Vec<u8> = Vec::new();
        return fnv_hash(&empty);
    }
    let mut i: usize = 0;
    while i < events.len()
        invariant
            evs == events_view(events@),
            evs.len() == events.len(),
            fits(events.len() as int),
            i <= events.len(),
            all_ok(evs.subrange(0, i as int), |e: TraceEventV| event_ok(e)),
            w.bytes@ == enc_num(events.len() as int) + concat_map(evs.subrange(0, i as int), |e: TraceEventV| enc_event(e)),
        decreases events.len() - i,
    {
        assert(evs[i as int] == events@[i as int]@);
        let r = write_event(&mut w, &events[i]);
        if r.is_err() {
            proof {
                lemma_all_ok_prefix_fails(evs, i as int, |e: TraceEventV| event_ok(e));
            }
            let empty: Vec<u8> = Vec::new();
            return fnv_hash(&empty);
        }
        proof {
            lemma_all_ok_prefix(evs, i as int, |e: TraceEventV| event_ok(e));
            assert(evs.subrange(0, i + 1) =~= evs.subrange(0, i as int).push(evs[i as int]));
            lemma_concat_map_push(evs.subrange(0, i as int), evs[i as int], |e: TraceEventV| enc_event(e));
        }
        i = i + 1;
    }
    assert(evs.subrange(0, i as int) =~= evs);
    let ghost mid = w.bytes@;
    match result {
        Some(v) => {
            w.write_u8(1);
            let r = w.write_value(v);
            if r.is_err() {
                let empty: Vec<u8> = Vec::new();
                return fnv_hash(&empty);
            }
        },
        None => w.write_u8(0),
    }
    assert(w.bytes@ =~= mid + enc_opt_value(opt_value_view(*result)));
    let r = w.write_optional_string(error);
    if r.is_err() {
        let empty: Vec<u8> = Vec::new();
        return fnv_hash(&empty);
    }
    assert(w.bytes@ =~= enc_trace(evs, opt_value_view(*result), opt_string_view(*error)));
    fnv_hash(&w.bytes)
}

} // verus!
