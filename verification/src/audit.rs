use vstd::prelude::*;
use crate::codec::{seq_lt, str_lt};
use crate::trace::{CapabilityTraceDecision, TraceEvent, TraceEventV, events_view};

verus! {

/// The counts of one capability: calls, granted calls, mocked calls.
pub type Counts = (nat, nat, nat);

pub open spec fn counted(c: Counts, d: CapabilityTraceDecision) -> Counts {
    (
        c.0 + 1,
        c.1 + if d == CapabilityTraceDecision::Granted { 1nat } else { 0nat },
        c.2 + if d == CapabilityTraceDecision::Mocked { 1nat } else { 0nat },
    )
}

/// The table `t`, kept in id order, with one more call of `id` decided as `d`.
pub open spec fn tally(t: Seq<(Seq<char>, Counts)>, id: Seq<char>, d: CapabilityTraceDecision) -> Seq<(Seq<char>, Counts)>
    decreases t.len(),
{
    if t.len() == 0 {
        seq![(id, counted((0, 0, 0), d))]
    } else if seq_lt(t.last().0, id) {
        t.push((id, counted((0, 0, 0), d)))
    } else if t.last().0 == id {
        t.drop_last().push((id, counted(t.last().1, d)))
    } else {
        tally(t.drop_last(), id, d).push(t.last())
    }
}

/// The table after the first `k` events.
pub open spec fn audit_fold(es: Seq<TraceEventV>, k: int) -> Seq<(Seq<char>, Counts)>
    decreases k,
{
    if k <= 0 {
        Seq::empty()
    } else {
        let t = audit_fold(es, k - 1);
        match es[k - 1].capability {
            Some(c) => tally(t, c.id, c.decision),
            None => t,
        }
    }
}

/// For each capability that the events call, in id order: how often it was called, granted
/// and mocked.
pub open spec fn capability_counts(es: Seq<TraceEventV>) -> Seq<(Seq<char>, Counts)> {
    audit_fold(es, es.len() as int)
}

pub open spec fn audit_view(t: Seq<(String, usize, usize, usize)>) -> Seq<(Seq<char>, Counts)> {
    t.map_values(|e: (String, usize, usize, usize)| (e.0@, (e.1 as nat, e.2 as nat, e.3 as nat)))
}

proof fn lemma_tally_suffix(t: Seq<(Seq<char>, Counts)>, j: int, id: Seq<char>, d: CapabilityTraceDecision)
    requires
        0 <= j <= t.len(),
        forall|i: int| j <= i < t.len() ==> !seq_lt(#[trigger] t[i].0, id) && t[i].0 != id,
    ensures
        tally(t, id, d) == tally(t.subrange(0, j), id, d) + t.subrange(j, t.len() as int),
    decreases t.len() - j,
{
    if j == t.len() {
        assert(t.subrange(0, j) =~= t);
        assert(tally(t, id, d) + Seq::<(Seq<char>, Counts)>::empty() =~= tally(t, id, d));
    } else {
        lemma_tally_suffix(t.drop_last(), j, id, d);
        assert(t.drop_last().subrange(0, j) =~= t.subrange(0, j));
        assert(t.drop_last().subrange(j, t.len() - 1).push(t.last()) =~= t.subrange(j, t.len() as int));
        assert(!seq_lt(t[t.len() - 1].0, id) && t[t.len() - 1].0 != id);
    }
}

/// Every count of the table is at most `k`.
pub open spec fn counts_at_most(t: Seq<(Seq<char>, Counts)>, k: nat) -> bool {
    forall|i: int| 0 <= i < t.len() ==> (#[trigger] t[i]).1.0 <= k && t[i].1.1 <= k && t[i].1.2 <= k
}

proof fn lemma_tally_bounded(t: Seq<(Seq<char>, Counts)>, id: Seq<char>, d: CapabilityTraceDecision, k: nat)
    requires
        counts_at_most(t, k),
    ensures
        counts_at_most(tally(t, id, d), k + 1),
    decreases t.len(),
{
    if t.len() > 0 && !seq_lt(t.last().0, id) && t.last().0 != id {
        lemma_tally_bounded(t.drop_last(), id, d, k);
        let r = tally(t.drop_last(), id, d).push(t.last());
        assert forall|i: int| 0 <= i < r.len() implies (#[trigger] r[i]).1.0 <= k + 1 && r[i].1.1 <= k + 1 && r[i].1.2
            <= k + 1 by {
            if i < r.len() - 1 {
                assert(r[i] == tally(t.drop_last(), id, d)[i]);
            }
        }
    } else if t.len() > 0 && t.last().0 == id {
        let r = t.drop_last().push((id, counted(t.last().1, d)));
        assert forall|i: int| 0 <= i < r.len() implies (#[trigger] r[i]).1.0 <= k + 1 && r[i].1.1 <= k + 1 && r[i].1.2
            <= k + 1 by {
            if i < r.len() - 1 {
                assert(r[i] == t[i]);
            }
        }
    } else if t.len() > 0 {
        let r = t.push((id, counted((0, 0, 0), d)));
        assert forall|i: int| 0 <= i < r.len() implies (#[trigger] r[i]).1.0 <= k + 1 && r[i].1.1 <= k + 1 && r[i].1.2
            <= k + 1 by {
            if i < r.len() - 1 {
                assert(r[i] == t[i]);
            }
        }
    }
}

fn tally_exec(t: &mut Vec<(String, usize, usize, usize)>, id: &String, d: CapabilityTraceDecision, Ghost(k): Ghost<nat>)
    requires
        counts_at_most(audit_view(old(t)@), k),
        k < usize::MAX,
    ensures
        audit_view(final(t)@) == tally(audit_view(old(t)@), id@, d),
{
    let ghost tv = audit_view(t@);
    let mut j = t.len();
    while j > 0 && !str_lt(t[j - 1].0.as_str(), id.as_str()) && t[j - 1].0 != *id
        invariant
            tv == audit_view(t@),
            t@ == old(t)@,
            j <= t.len(),
            forall|i: int| j <= i < tv.len() ==> !seq_lt(#[trigger] tv[i].0, id@) && tv[i].0 != id@,
        decreases j,
    {
        assert(tv[j - 1].0 == t@[j - 1].0@);
        j = j - 1;
    }
    proof {
        lemma_tally_suffix(tv, j as int, id@, d);
    }
    let g: usize = if d == CapabilityTraceDecision::Granted { 1 } else { 0 };
    let m: usize = if d == CapabilityTraceDecision::Mocked { 1 } else { 0 };
    if j == 0 {
        t.insert(0, (id.clone(), 1, g, m));
        assert(audit_view(t@) =~= seq![(id@, counted((0, 0, 0), d))] + tv.subrange(0, tv.len() as int));
    } else if str_lt(t[j - 1].0.as_str(), id.as_str()) {
        assert(tv.subrange(0, j as int).last() == tv[j - 1]);
        t.insert(j, (id.clone(), 1, g, m));
        assert(audit_view(t@) =~= tv.subrange(0, j as int).push((id@, counted((0, 0, 0), d))) + tv.subrange(
            j as int,
            tv.len() as int,
        ));
    } else {
        assert(tv.subrange(0, j as int).last() == tv[j - 1]);
        assert(tv[j - 1].0 == id@);
        assert(tv[j - 1] == audit_view(t@)[j - 1]);
        let total = t[j - 1].1;
        let granted = t[j - 1].2;
        let mocked = t[j - 1].3;
        assert(total as nat <= k && granted as nat <= k && mocked as nat <= k);
        t.set(j - 1, (id.clone(), total + 1, granted + g, mocked + m));
        assert(audit_view(t@) =~= tv.subrange(0, j - 1).push((id@, counted(tv[j - 1].1, d))) + tv.subrange(
            j as int,
            tv.len() as int,
        ));
        assert(tv.subrange(0, j as int).drop_last() =~= tv.subrange(0, j - 1));
    }
}

/// For each capability that the events call, in id order: its id, how often it was called,
/// how often granted and how often mocked.
pub fn capability_audit(events: &Vec<TraceEvent>) -> (r: Vec<(String, usize, usize, usize)>)
    ensures
        audit_view(r@) == capability_counts(events_view(events@)),
{
    let ghost ev = events_view(events@);
    let mut t: Vec<(String, usize, usize, usize)> = Vec::new();
    assert(audit_view(t@) =~= audit_fold(ev, 0));
    let mut k: usize = 0;
    while k < events.len()
        invariant
            k <= events.len(),
            ev == events_view(events@),
            audit_view(t@) == audit_fold(ev, k as int),
            counts_at_most(audit_view(t@), k as nat),
        decreases events.len() - k,
    {
        assert(ev[k as int] == events@[k as int]@);
        match &events[k].capability {
            Some(c) => {
                proof {
                    lemma_tally_bounded(audit_view(t@), c.id@, c.decision, k as nat);
                }
                tally_exec(&mut t, &c.id, c.decision, Ghost(k as nat));
            },
            None => {},
        }
        k = k + 1;
    }
    t
}

} // verus!
