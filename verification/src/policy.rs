use vstd::prelude::*;
use crate::bytecode::{
    CapabilityDecl, CapabilityDeclV, Module, builtin_sig, builtin_signature, capabilities_view, opt_string_view,
};
use crate::error::{ChronicleError, ChronicleErrorV, PolicyError, PolicyErrorKind, PolicyErrorV};
use crate::value::{Value, ValueV, accepts_type, clone_value, value_type_of};

verus! {

/// What the host decides for one capability.
#[derive(Debug)]
pub enum CapabilityDecision {
    Grant,
    Deny,
    Mock(Value),
}

pub enum DecisionV {
    Grant,
    Deny,
    Mock(ValueV),
}

impl View for CapabilityDecision {
    type V = DecisionV;

    open spec fn view(&self) -> DecisionV {
        match self {
            CapabilityDecision::Grant => DecisionV::Grant,
            CapabilityDecision::Deny => DecisionV::Deny,
            CapabilityDecision::Mock(v) => DecisionV::Mock(v@),
        }
    }
}

pub fn clone_decision(d: &CapabilityDecision) -> (r: CapabilityDecision)
    ensures
        r@ == d@,
{
    match d {
        CapabilityDecision::Grant => CapabilityDecision::Grant,
        CapabilityDecision::Deny => CapabilityDecision::Deny,
        CapabilityDecision::Mock(v) => CapabilityDecision::Mock(clone_value(v)),
    }
}

/// A table from capability id to decision; an id occurs at most once where the table is
/// built by [`table_insert`].
pub type DecisionTable = Vec<(String, CapabilityDecision)>;

pub open spec fn table_view(t: Seq<(String, CapabilityDecision)>) -> Seq<(Seq<char>, DecisionV)> {
    t.map_values(|e: (String, CapabilityDecision)| (e.0@, e.1@))
}

/// The decision of the first entry for `id`.
pub open spec fn lookup(t: Seq<(Seq<char>, DecisionV)>, id: Seq<char>) -> Option<DecisionV>
    decreases t.len(),
{
    if t.len() == 0 {
        None
    } else {
        match lookup(t.drop_last(), id) {
            Some(d) => Some(d),
            None => if t.last().0 == id {
                Some(t.last().1)
            } else {
                None
            },
        }
    }
}

/// The decisions a host makes for the capabilities a module asks for.
#[derive(Debug)]
pub struct HostPolicy {
    pub decisions: DecisionTable,
}

/// The outcome of negotiating one capability.
#[derive(Clone, Copy, Debug, PartialEq, Eq, Structural)]
pub enum NegotiationStatus {
    Granted,
    Mocked,
    Denied,
    Unknown,
    TypeInvalid,
}

/// One declared capability with the decision the policy made for it and the outcome.
#[derive(Debug)]
pub struct NegotiationEntry {
    pub capability: String,
    pub decision: CapabilityDecision,
    pub status: NegotiationStatus,
    pub reason: Option<String>,
}

pub struct NegotiationEntryV {
    pub capability: Seq<char>,
    pub decision: DecisionV,
    pub status: NegotiationStatus,
    pub reason: Option<Seq<char>>,
}

impl View for NegotiationEntry {
    type V = NegotiationEntryV;

    open spec fn view(&self) -> NegotiationEntryV {
        NegotiationEntryV {
            capability: self.capability@,
            decision: self.decision@,
            status: self.status,
            reason: opt_string_view(self.reason),
        }
    }
}

/// The outcome of negotiating every capability of a module, in declaration order.
#[derive(Debug)]
pub struct NegotiationReport {
    pub entries: Vec<NegotiationEntry>,
}

pub open spec fn entries_view(s: Seq<NegotiationEntry>) -> Seq<NegotiationEntryV> {
    s.map_values(|e: NegotiationEntry| e@)
}

/// The capabilities a host provides: for each, the versioned id and the parameter and
/// return types its handler takes.
#[derive(Debug)]
pub struct HostRegistry {
    pub capabilities: Vec<CapabilityDecl>,
}

impl View for HostRegistry {
    type V = Seq<CapabilityDeclV>;

    open spec fn view(&self) -> Seq<CapabilityDeclV> {
        capabilities_view(self.capabilities@)
    }
}

/// The signature the host registers for `id`: that of its first entry for `id`.
pub open spec fn registered(host: Seq<CapabilityDeclV>, id: Seq<char>) -> Option<CapabilityDeclV>
    decreases host.len(),
{
    if host.len() == 0 {
        None
    } else {
        match registered(host.drop_last(), id) {
            Some(d) => Some(d),
            None => if host.last().id == id {
                Some(host.last())
            } else {
                None
            },
        }
    }
}

/// The host that provides the built-in capabilities and nothing else.
pub open spec fn builtin_host() -> Seq<CapabilityDeclV> {
    seq![
        builtin_sig("log.print@1"@)->Some_0,
        builtin_sig("clock.now@1"@)->Some_0,
        builtin_sig("random.u64@1"@)->Some_0,
    ]
}

/// Whether two declarations take the same parameter types and return the same type.
pub open spec fn same_signature(a: CapabilityDeclV, b: CapabilityDeclV) -> bool {
    a.params == b.params && a.return_type == b.return_type
}

/// The status a decision gives a declared capability on a host: a grant holds only for an
/// id the host registers with exactly the declared signature.
pub open spec fn status_for(host: Seq<CapabilityDeclV>, decl: CapabilityDeclV, decision: DecisionV) -> NegotiationStatus {
    match decision {
        DecisionV::Grant => match registered(host, decl.id) {
            Some(h) => if same_signature(h, decl) {
                NegotiationStatus::Granted
            } else {
                NegotiationStatus::TypeInvalid
            },
            None => NegotiationStatus::Unknown,
        },
        DecisionV::Mock(v) => if !accepts_type(decl.return_type, value_type_of(v)) {
            NegotiationStatus::TypeInvalid
        } else {
            NegotiationStatus::Mocked
        },
        DecisionV::Deny => NegotiationStatus::Denied,
    }
}

/// The negotiation entry of one declared capability on a host: a capability the policy
/// does not mention is denied.
pub open spec fn entry_for(host: Seq<CapabilityDeclV>, decisions: Seq<(Seq<char>, DecisionV)>, decl: CapabilityDeclV) -> NegotiationEntryV {
    let decision = match lookup(decisions, decl.id) {
        Some(d) => d,
        None => DecisionV::Deny,
    };
    NegotiationEntryV { capability: decl.id, decision, status: status_for(host, decl, decision), reason: decl.reason }
}

/// No id occurs twice in a decision table.
pub open spec fn distinct_ids(t: Seq<(Seq<char>, DecisionV)>) -> bool {
    forall|i: int, j: int| 0 <= i < j < t.len() ==> #[trigger] t[i].0 != #[trigger] t[j].0
}

pub open spec fn is_success_status(s: NegotiationStatus) -> bool {
    s == NegotiationStatus::Granted || s == NegotiationStatus::Mocked
}

pub fn lookup_exec(t: &DecisionTable, id: &String) -> (r: Option<usize>)
    ensures
        match r {
            Some(i) => i < t.len() && lookup(table_view(t@), id@) == Some(t@[i as int].1@),
            None => lookup(table_view(t@), id@) is None,
        },
{
    let ghost tv = table_view(t@);
    let mut i: usize = 0;
    while i < t.len()
        invariant
            tv == table_view(t@),
            i <= t.len(),
            lookup(tv.subrange(0, i as int), id@) is None,
        decreases t.len() - i,
    {
        assert(tv.subrange(0, i + 1).drop_last() =~= tv.subrange(0, i as int));
        if t[i].0 == *id {
            assert(tv[i as int] == (t@[i as int].0@, t@[i as int].1@));
            assert(tv.subrange(0, i + 1).last() == tv[i as int]);
            assert(lookup(tv.subrange(0, i + 1), id@) == Some(t@[i as int].1@));
            proof {
                lemma_lookup_prefix(tv, i as int + 1, id@);
            }
            return Some(i);
        }
        i = i + 1;
    }
    assert(tv.subrange(0, i as int) =~= tv);
    None
}

/// A prefix that decides an id decides it for the whole table.
pub proof fn lemma_lookup_prefix(t: Seq<(Seq<char>, DecisionV)>, n: int, id: Seq<char>)
    requires
        0 <= n <= t.len(),
        lookup(t.subrange(0, n), id) is Some,
    ensures
        lookup(t, id) == lookup(t.subrange(0, n), id),
    decreases t.len() - n,
{
    if n < t.len() {
        assert(t.subrange(0, n + 1).drop_last() =~= t.subrange(0, n));
        lemma_lookup_prefix(t, n + 1, id);
    } else {
        assert(t.subrange(0, n) =~= t);
    }
}

/// The position of the host's first entry for `id`.
fn registered_exec(host: &HostRegistry, id: &String) -> (r: Option<usize>)
    ensures
        match r {
            Some(i) => i < host.capabilities.len() && registered(host@, id@) == Some(host@[i as int]),
            None => registered(host@, id@) is None,
        },
{
    let ghost hv = host@;
    let mut i: usize = 0;
    while i < host.capabilities.len()
        invariant
            hv == host@,
            hv.len() == host.capabilities.len(),
            i <= host.capabilities.len(),
            registered(hv.subrange(0, i as int), id@) is None,
        decreases host.capabilities.len() - i,
    {
        assert(hv.subrange(0, i + 1).drop_last() =~= hv.subrange(0, i as int));
        assert(hv[i as int] == host.capabilities@[i as int]@);
        if host.capabilities[i].id == *id {
            assert(hv.subrange(0, i + 1).last() == hv[i as int]);
            proof {
                lemma_registered_prefix(hv, i as int + 1, id@);
            }
            return Some(i);
        }
        i = i + 1;
    }
    assert(hv.subrange(0, i as int) =~= hv);
    None
}

/// A prefix of the host's entries that registers an id registers it for the whole host.
pub proof fn lemma_registered_prefix(host: Seq<CapabilityDeclV>, n: int, id: Seq<char>)
    requires
        0 <= n <= host.len(),
        registered(host.subrange(0, n), id) is Some,
    ensures
        registered(host, id) == registered(host.subrange(0, n), id),
    decreases host.len() - n,
{
    if n < host.len() {
        assert(host.subrange(0, n + 1).drop_last() =~= host.subrange(0, n));
        lemma_registered_prefix(host, n + 1, id);
    } else {
        assert(host.subrange(0, n) =~= host);
    }
}

/// Whether two declarations take the same parameter types and return the same type.
fn same_signature_exec(a: &CapabilityDecl, b: &CapabilityDecl) -> (r: bool)
    ensures
        r == same_signature(a@, b@),
{
    if a.params.len() != b.params.len() || a.return_type != b.return_type {
        return false;
    }
    let mut k: usize = 0;
    while k < a.params.len()
        invariant
            a.params.len() == b.params.len(),
            k <= a.params.len(),
            forall|j: int| 0 <= j < k ==> a.params@[j] == b.params@[j],
        decreases a.params.len() - k,
    {
        if a.params[k] != b.params[k] {
            return false;
        }
        k = k + 1;
    }
    assert(a.params@ =~= b.params@);
    true
}

impl HostRegistry {
    /// The host that provides `log.print@1`, `clock.now@1` and `random.u64@1`.
    pub fn with_builtins() -> (r: HostRegistry)
        ensures
            r@ == builtin_host(),
    {
        let mut capabilities: Vec<CapabilityDecl> = Vec::new();
        let print = builtin_signature("log.print@1");
        let clock = builtin_signature("clock.now@1");
        let random = builtin_signature("random.u64@1");
        proof {
            reveal_strlit("log.print@1");
            reveal_strlit("clock.now@1");
            reveal_strlit("random.u64@1");
        }
        match (print, clock, random) {
            (Some(p), Some(c), Some(r)) => {
                capabilities.push(p);
                capabilities.push(c);
                capabilities.push(r);
            },
            _ => {},
        }
        let r = HostRegistry { capabilities };
        assert(r@ =~= builtin_host());
        r
    }

    /// Registers `decl`: it replaces the host's entry for the same id, or is added.
    pub fn insert(&mut self, decl: CapabilityDecl)
        ensures
            final(self)@ == match registered_index(old(self)@, decl@.id) {
                Some(i) => old(self)@.update(i, decl@),
                None => old(self)@.push(decl@),
            },
    {
        let ghost hv = self@;
        let mut i: usize = 0;
        while i < self.capabilities.len()
            invariant
                hv == self@,
                self@ == old(self)@,
                hv.len() == self.capabilities.len(),
                i <= self.capabilities.len(),
                registered_index(hv.subrange(0, i as int), decl@.id) is None,
            decreases self.capabilities.len() - i,
        {
            assert(hv.subrange(0, i + 1).drop_last() =~= hv.subrange(0, i as int));
            assert(hv[i as int] == self.capabilities@[i as int]@);
            if self.capabilities[i].id == decl.id {
                assert(hv.subrange(0, i + 1).last() == hv[i as int]);
                proof {
                    lemma_registered_index_prefix(hv, i as int + 1, decl@.id);
                }
                self.capabilities.set(i, decl);
                assert(self@ =~= hv.update(i as int, decl@));
                return;
            }
            i = i + 1;
        }
        assert(hv.subrange(0, i as int) =~= hv);
        self.capabilities.push(decl);
        assert(self@ =~= hv.push(decl@));
    }
}

/// The position of the host's first entry for `id`.
pub open spec fn registered_index(host: Seq<CapabilityDeclV>, id: Seq<char>) -> Option<int>
    decreases host.len(),
{
    if host.len() == 0 {
        None
    } else {
        match registered_index(host.drop_last(), id) {
            Some(i) => Some(i),
            None => if host.last().id == id {
                Some(host.len() - 1)
            } else {
                None
            },
        }
    }
}

pub proof fn lemma_registered_index_prefix(host: Seq<CapabilityDeclV>, n: int, id: Seq<char>)
    requires
        0 <= n <= host.len(),
        registered_index(host.subrange(0, n), id) is Some,
    ensures
        registered_index(host, id) == registered_index(host.subrange(0, n), id),
    decreases host.len() - n,
{
    if n < host.len() {
        assert(host.subrange(0, n + 1).drop_last() =~= host.subrange(0, n));
        lemma_registered_index_prefix(host, n + 1, id);
    } else {
        assert(host.subrange(0, n) =~= host);
    }
}

impl HostPolicy {
    /// No capability id has two decisions.
    pub open spec fn wf(&self) -> bool {
        distinct_ids(table_view(self.decisions@))
    }

    /// The policy that decides nothing: every capability is denied.
    pub fn empty() -> (r: HostPolicy)
        ensures
            r.decisions@.len() == 0,
            r.wf(),
    {
        HostPolicy { decisions: Vec::new() }
    }

    /// Decides `id` by `d`, replacing an earlier decision for `id`.
    pub fn insert(&mut self, id: &String, d: &CapabilityDecision)
        requires
            old(self).wf(),
        ensures
            table_view(final(self).decisions@) == table_insert(table_view(old(self).decisions@), id@, d@),
            final(self).wf(),
    {
        proof {
            lemma_table_insert_distinct(table_view(self.decisions@), id@, d@);
        }
        insert_decision(&mut self.decisions, id, d);
    }

    /// Negotiates every capability the module declares, in declaration order, on the host
    /// that provides the built-in capabilities.
    pub fn negotiate(&self, module: &Module) -> (r: NegotiationReport)
        requires
            self.wf(),
        ensures
            entries_view(r.entries@) == module@.capabilities.map_values(
                |d: CapabilityDeclV| entry_for(builtin_host(), table_view(self.decisions@), d),
            ),
    {
        let host = HostRegistry::with_builtins();
        self.negotiate_with_host(module, &host)
    }

    /// Negotiates every capability the module declares, in declaration order, on `host`.
    pub fn negotiate_with_host(&self, module: &Module, host: &HostRegistry) -> (r: NegotiationReport)
        requires
            self.wf(),
        ensures
            entries_view(r.entries@) == module@.capabilities.map_values(
                |d: CapabilityDeclV| entry_for(host@, table_view(self.decisions@), d),
            ),
    {
        let ghost tv = table_view(self.decisions@);
        let mut entries: Vec<NegotiationEntry> = Vec::new();
        let mut i: usize = 0;
        while i < module.capabilities.len()
            invariant
                tv == table_view(self.decisions@),
                i <= module.capabilities.len(),
                entries.len() == i,
                forall|j: int| 0 <= j < i ==> (#[trigger] entries@[j])@ == entry_for(host@, tv, module@.capabilities[j]),
            decreases module.capabilities.len() - i,
        {
            let decl = &module.capabilities[i];
            assert(module@.capabilities[i as int] == decl@);
            let decision = match lookup_exec(&self.decisions, &decl.id) {
                Some(k) => clone_decision(&self.decisions[k].1),
                None => CapabilityDecision::Deny,
            };
            let status = match &decision {
                CapabilityDecision::Grant => match registered_exec(host, &decl.id) {
                    Some(h) => {
                        assert(host@[h as int] == host.capabilities@[h as int]@);
                        if same_signature_exec(&host.capabilities[h], decl) {
                            NegotiationStatus::Granted
                        } else {
                            NegotiationStatus::TypeInvalid
                        }
                    },
                    None => NegotiationStatus::Unknown,
                },
                CapabilityDecision::Mock(value) => {
                    if !decl.return_type.accepts(value) {
                        NegotiationStatus::TypeInvalid
                    } else {
                        NegotiationStatus::Mocked
                    }
                },
                CapabilityDecision::Deny => NegotiationStatus::Denied,
            };
            let reason = match &decl.reason {
                Some(s) => Some(s.clone()),
                None => None,
            };
            entries.push(NegotiationEntry { capability: decl.id.clone(), decision, status, reason });
            i = i + 1;
        }
        assert(entries_view(entries@) =~= module@.capabilities.map_values(
            |d: CapabilityDeclV| entry_for(host@, tv, d),
        ));
        NegotiationReport { entries }
    }
}

/// Deciding an id keeps every id of the table distinct.
pub proof fn lemma_table_insert_distinct(t: Seq<(Seq<char>, DecisionV)>, id: Seq<char>, d: DecisionV)
    requires
        distinct_ids(t),
    ensures
        distinct_ids(table_insert(t, id, d)),
{
    lemma_first_key_none(t, id);
    lemma_first_key_at(t, id);
}

/// An id without a first entry has no entry at all.
pub proof fn lemma_first_key_none(t: Seq<(Seq<char>, DecisionV)>, id: Seq<char>)
    ensures
        first_key(t, id) is None ==> forall|k: int| 0 <= k < t.len() ==> #[trigger] t[k].0 != id,
    decreases t.len(),
{
    if t.len() > 0 {
        lemma_first_key_none(t.drop_last(), id);
        if first_key(t, id) is None {
            assert forall|k: int| 0 <= k < t.len() implies #[trigger] t[k].0 != id by {
                if k < t.len() - 1 {
                    assert(t.drop_last()[k] == t[k]);
                }
            }
        }
    }
}

/// The first entry for an id holds that id.
pub proof fn lemma_first_key_at(t: Seq<(Seq<char>, DecisionV)>, id: Seq<char>)
    ensures
        first_key(t, id) matches Some(i) ==> 0 <= i < t.len() && t[i].0 == id,
    decreases t.len(),
{
    if t.len() > 0 {
        lemma_first_key_at(t.drop_last(), id);
        if let Some(i) = first_key(t.drop_last(), id) {
            assert(t.drop_last()[i] == t[i]);
        }
    }
}

/// `t` with `id` mapped to `d`: an existing entry for `id` is replaced in place, otherwise
/// the entry is appended.
pub open spec fn table_insert(t: Seq<(Seq<char>, DecisionV)>, id: Seq<char>, d: DecisionV) -> Seq<(Seq<char>, DecisionV)> {
    match first_key(t, id) {
        Some(i) => t.update(i, (id, d)),
        None => t.push((id, d)),
    }
}

/// The position of the first entry for `id`.
pub open spec fn first_key(t: Seq<(Seq<char>, DecisionV)>, id: Seq<char>) -> Option<int>
    decreases t.len(),
{
    if t.len() == 0 {
        None
    } else {
        match first_key(t.drop_last(), id) {
            Some(i) => Some(i),
            None => if t.last().0 == id {
                Some(t.len() - 1)
            } else {
                None
            },
        }
    }
}

/// The table that negotiation yields from the first `n` entries.
pub open spec fn table_from(entries: Seq<NegotiationEntryV>, n: int) -> Seq<(Seq<char>, DecisionV)>
    decreases n,
{
    if n <= 0 {
        Seq::empty()
    } else {
        table_insert(table_from(entries, n - 1), entries[n - 1].capability, entries[n - 1].decision)
    }
}

/// The failure of the first entry that is neither granted nor mocked.
pub open spec fn entry_failure(e: NegotiationEntryV) -> Option<PolicyErrorV> {
    match e.status {
        NegotiationStatus::Denied => Some(PolicyErrorV {
            kind: PolicyErrorKind::DeniedCapability,
            capability: e.capability,
            message: "capability denied by policy or missing from policy"@,
        }),
        NegotiationStatus::Unknown => Some(PolicyErrorV {
            kind: PolicyErrorKind::UnsupportedCapabilityVersion,
            capability: e.capability,
            message: "capability/version not provided by the host"@,
        }),
        NegotiationStatus::TypeInvalid => Some(match e.decision {
            DecisionV::Grant => PolicyErrorV {
                kind: PolicyErrorKind::UnsupportedCapabilityVersion,
                capability: e.capability,
                message: "host signature differs from the declared capability"@,
            },
            _ => PolicyErrorV {
                kind: PolicyErrorKind::MockTypeMismatch,
                capability: e.capability,
                message: "mock value does not match declared return type"@,
            },
        }),
        _ => None,
    }
}

/// The index of the first failing entry.
pub open spec fn first_failure(entries: Seq<NegotiationEntryV>) -> Option<int>
    decreases entries.len(),
{
    if entries.len() == 0 {
        None
    } else {
        match first_failure(entries.drop_last()) {
            Some(i) => Some(i),
            None => if entry_failure(entries.last()) is Some {
                Some(entries.len() - 1)
            } else {
                None
            },
        }
    }
}

impl NegotiationReport {
    /// Whether every capability was granted or mocked.
    pub fn is_success(&self) -> (r: bool)
        ensures
            r == forall|i: int| 0 <= i < self.entries.len() ==> #[trigger] is_success_status(self.entries@[i].status),
    {
        let mut i: usize = 0;
        while i < self.entries.len()
            invariant
                i <= self.entries.len(),
                forall|j: int| 0 <= j < i ==> #[trigger] is_success_status(self.entries@[j].status),
            decreases self.entries.len() - i,
        {
            let s = self.entries[i].status;
            if !(s == NegotiationStatus::Granted || s == NegotiationStatus::Mocked) {
                assert(!is_success_status(self.entries@[i as int].status));
                return false;
            }
            i = i + 1;
        }
        true
    }

    /// The capability table of a successful negotiation, or the policy failure of the first
    /// capability that was not granted or mocked.
    pub fn into_capability_table(self) -> (r: Result<DecisionTable, ChronicleError>)
        ensures
            match first_failure(entries_view(self.entries@)) {
                Some(i) => r matches Err(e) && e@ == ChronicleErrorV::Policy(
                    entry_failure(entries_view(self.entries@)[i])->Some_0,
                ),
                None => r matches Ok(t) && table_view(t@) == table_from(
                    entries_view(self.entries@),
                    self.entries.len() as int,
                ),
            },
    {
        let ghost ev = entries_view(self.entries@);
        let mut table: DecisionTable = Vec::new();
        let mut i: usize = 0;
        while i < self.entries.len()
            invariant
                ev == entries_view(self.entries@),
                i <= self.entries.len(),
                first_failure(ev.subrange(0, i as int)) is None,
                table_view(table@) == table_from(ev, i as int),
            decreases self.entries.len() - i,
        {
            let entry = &self.entries[i];
            assert(ev[i as int] == entry@);
            assert(ev.subrange(0, i + 1).drop_last() =~= ev.subrange(0, i as int));
            match entry.status {
                NegotiationStatus::Granted | NegotiationStatus::Mocked => {
                    insert_decision(&mut table, &entry.capability, &entry.decision);
                },
                NegotiationStatus::Denied => {
                    proof {
                        lemma_first_failure_prefix(ev, i as int + 1);
                    }
                    return Err(ChronicleError::Policy(PolicyError::new(
                        PolicyErrorKind::DeniedCapability,
                        entry.capability.as_str(),
                        "capability denied by policy or missing from policy",
                    )));
                },
                NegotiationStatus::Unknown => {
                    proof {
                        lemma_first_failure_prefix(ev, i as int + 1);
                    }
                    return Err(ChronicleError::Policy(PolicyError::new(
                        PolicyErrorKind::UnsupportedCapabilityVersion,
                        entry.capability.as_str(),
                        "capability/version not provided by the host",
                    )));
                },
                NegotiationStatus::TypeInvalid => {
                    proof {
                        lemma_first_failure_prefix(ev, i as int + 1);
                    }
                    return match entry.decision {
                        CapabilityDecision::Grant => Err(ChronicleError::Policy(PolicyError::new(
                            PolicyErrorKind::UnsupportedCapabilityVersion,
                            entry.capability.as_str(),
                            "host signature differs from the declared capability",
                        ))),
                        _ => Err(ChronicleError::Policy(PolicyError::new(
                            PolicyErrorKind::MockTypeMismatch,
                            entry.capability.as_str(),
                            "mock value does not match declared return type",
                        ))),
                    };
                },
            }
            i = i + 1;
        }
        assert(ev.subrange(0, i as int) =~= ev);
        Ok(table)
    }
}

/// A failure found in a prefix is the first failure of the whole list.
pub proof fn lemma_first_failure_prefix(ev: Seq<NegotiationEntryV>, n: int)
    requires
        0 <= n <= ev.len(),
        first_failure(ev.subrange(0, n)) is Some,
    ensures
        first_failure(ev) == first_failure(ev.subrange(0, n)),
    decreases ev.len() - n,
{
    if n < ev.len() {
        assert(ev.subrange(0, n + 1).drop_last() =~= ev.subrange(0, n));
        lemma_first_failure_prefix(ev, n + 1);
    } else {
        assert(ev.subrange(0, n) =~= ev);
    }
}

fn insert_decision(table: &mut DecisionTable, id: &String, d: &CapabilityDecision)
    ensures
        table_view(final(table)@) == table_insert(table_view(old(table)@), id@, d@),
{
    let ghost tv = table_view(table@);
    let mut i: usize = 0;
    while i < table.len()
        invariant
            tv == table_view(table@),
            table@ == old(table)@,
            i <= table.len(),
            first_key(tv.subrange(0, i as int), id@) is None,
        decreases table.len() - i,
    {
        assert(tv.subrange(0, i + 1).drop_last() =~= tv.subrange(0, i as int));
        if table[i].0 == *id {
            assert(tv[i as int].0 == id@);
            assert(tv.subrange(0, i + 1).last() == tv[i as int]);
            assert(first_key(tv.subrange(0, i + 1), id@) == Some(i as int));
            proof {
                lemma_first_key_prefix(tv, i as int + 1, id@);
            }
            table.set(i, (id.clone(), clone_decision(d)));
            assert(table_view(table@) =~= tv.update(i as int, (id@, d@)));
            assert(first_key(tv, id@) == Some(i as int));
            assert(table_insert(tv, id@, d@) == tv.update(i as int, (id@, d@)));
            return;
        }
        i = i + 1;
    }
    assert(tv.subrange(0, i as int) =~= tv);
    table.push((id.clone(), clone_decision(d)));
    assert(table_view(table@) =~= tv.push((id@, d@)));
}

pub proof fn lemma_first_key_prefix(t: Seq<(Seq<char>, DecisionV)>, n: int, id: Seq<char>)
    requires
        0 <= n <= t.len(),
        first_key(t.subrange(0, n), id) is Some,
    ensures
        first_key(t, id) == first_key(t.subrange(0, n), id),
    decreases t.len() - n,
{
    if n < t.len() {
        assert(t.subrange(0, n + 1).drop_last() =~= t.subrange(0, n));
        lemma_first_key_prefix(t, n + 1, id);
    } else {
        assert(t.subrange(0, n) =~= t);
    }
}

} // verus!

verus! {

/// The decision that a lookup finds is that of the first entry for the id.
pub proof fn lemma_lookup_first_key(t: Seq<(Seq<char>, DecisionV)>, id: Seq<char>)
    ensures
        lookup(t, id) == match first_key(t, id) {
            Some(i) => Some(t[i].1),
            None => None::<DecisionV>,
        },
        first_key(t, id) matches Some(i) ==> 0 <= i < t.len() && t[i].0 == id && forall|j: int| 0 <= j < i ==> #[trigger] t[j].0 != id,
    decreases t.len(),
{
    if t.len() > 0 {
        lemma_lookup_first_key(t.drop_last(), id);
        lemma_first_key_none(t.drop_last(), id);
        if let Some(i) = first_key(t.drop_last(), id) {
            assert(t.drop_last()[i] == t[i]);
            assert forall|j: int| 0 <= j < i implies #[trigger] t[j].0 != id by {
                assert(t.drop_last()[j] == t[j]);
            }
        } else {
            assert forall|j: int| 0 <= j < t.len() - 1 implies #[trigger] t[j].0 != id by {
                assert(t.drop_last()[j] == t[j]);
            }
        }
    }
}

/// Deciding `id` by `d` makes the table answer `d` for `id` and leaves every other id alone.
pub proof fn table_insert_decides(t: Seq<(Seq<char>, DecisionV)>, id: Seq<char>, d: DecisionV, other: Seq<char>)
    ensures
        lookup(table_insert(t, id, d), id) == Some(d),
        other != id ==> lookup(table_insert(t, id, d), other) == lookup(t, other),
{
    let r = table_insert(t, id, d);
    lemma_lookup_first_key(t, id);
    lemma_lookup_first_key(t, other);
    lemma_lookup_first_key(r, id);
    lemma_lookup_first_key(r, other);
    lemma_first_key_none(t, id);
    lemma_first_key_none(t, other);
    lemma_first_key_none(r, id);
    lemma_first_key_none(r, other);
    match first_key(t, id) {
        Some(i) => {
            assert(r == t.update(i, (id, d)));
            assert(r[i].0 == id);
            assert(first_key(r, id) is Some);
            if let Some(k) = first_key(r, id) {
                assert(k == i) by {
                    if k < i {
                        assert(r[k] == t[k]);
                    }
                    if i < k {
                        assert(r[i].0 == id);
                    }
                }
            }
            if other != id {
                match first_key(t, other) {
                    Some(j) => {
                        assert(r[j] == t[j]);
                        if let Some(k) = first_key(r, other) {
                            assert(k == j) by {
                                if k < j {
                                    assert(r[k] == t[k] || k == i);
                                }
                                if j < k {
                                    assert(r[j].0 == other);
                                }
                            }
                        }
                    },
                    None => {
                        if let Some(k) = first_key(r, other) {
                            assert(r[k] == t[k] || k == i);
                            assert(false);
                        }
                    },
                }
            }
        },
        None => {
            assert(r == t.push((id, d)));
            assert(r[t.len() as int].0 == id);
            assert(first_key(r, id) is Some);
            if let Some(k) = first_key(r, id) {
                if k < t.len() {
                    assert(r[k] == t[k]);
                }
                assert(k == t.len());
            }
            if other != id {
                match first_key(t, other) {
                    Some(j) => {
                        assert(r[j] == t[j]);
                        if let Some(k) = first_key(r, other) {
                            assert(k == j) by {
                                if k < j {
                                    assert(r[k] == t[k]);
                                }
                                if j < k {
                                    assert(r[j].0 == other);
                                }
                            }
                        }
                    },
                    None => {
                        if let Some(k) = first_key(r, other) {
                            if k < t.len() {
                                assert(r[k] == t[k]);
                            }
                            assert(false);
                        }
                    },
                }
            }
        },
    }
}

/// A negotiation yields a capability table exactly when every entry is granted or mocked,
/// and then, where no capability occurs twice, the table holds each entry's decision under
/// its capability and nothing else.
pub proof fn capability_table_of_success(entries: Seq<NegotiationEntryV>)
    requires
        forall|i: int, j: int| 0 <= i < j < entries.len() ==> #[trigger] entries[i].capability != #[trigger] entries[j].capability,
    ensures
        first_failure(entries) is None <==> forall|i: int| 0 <= i < entries.len() ==> #[trigger] is_success_status(entries[i].status),
        forall|i: int| 0 <= i < entries.len() ==> lookup(table_from(entries, entries.len() as int), #[trigger] entries[i].capability) == Some(entries[i].decision),
        forall|id: Seq<char>| (forall|i: int| 0 <= i < entries.len() ==> #[trigger] entries[i].capability != id) ==> lookup(table_from(entries, entries.len() as int), id) is None,
{
    lemma_failure_iff(entries);
    lemma_table_from(entries, entries.len() as int);
}

pub proof fn lemma_failure_iff(es: Seq<NegotiationEntryV>)
    ensures
        first_failure(es) is None <==> forall|i: int| 0 <= i < es.len() ==> #[trigger] is_success_status(es[i].status),
    decreases es.len(),
{
    if es.len() > 0 {
        let pre = es.drop_last();
        lemma_failure_iff(pre);
        assert forall|i: int| 0 <= i < pre.len() implies #[trigger] pre[i] == es[i] by {}
        if first_failure(es) is None {
            assert forall|i: int| 0 <= i < es.len() implies #[trigger] is_success_status(es[i].status) by {
                if i < pre.len() {
                    assert(pre[i] == es[i]);
                    assert(is_success_status(pre[i].status));
                }
            }
        } else {
            if forall|i: int| 0 <= i < es.len() ==> #[trigger] is_success_status(es[i].status) {
                assert forall|i: int| 0 <= i < pre.len() implies #[trigger] is_success_status(pre[i].status) by {
                    assert(pre[i] == es[i]);
                    assert(is_success_status(es[i].status));
                }
                assert(is_success_status(es[es.len() - 1].status));
            }
        }
    }
}

proof fn lemma_table_from(es: Seq<NegotiationEntryV>, n: int)
    requires
        0 <= n <= es.len(),
        forall|i: int, j: int| 0 <= i < j < es.len() ==> #[trigger] es[i].capability != #[trigger] es[j].capability,
    ensures
        forall|i: int| 0 <= i < n ==> lookup(table_from(es, n), #[trigger] es[i].capability) == Some(es[i].decision),
        forall|id: Seq<char>| (forall|i: int| 0 <= i < n ==> #[trigger] es[i].capability != id) ==> lookup(table_from(es, n), id) is None,
    decreases n,
{
    if n > 0 {
        lemma_table_from(es, n - 1);
        let t = table_from(es, n - 1);
        let id = es[n - 1].capability;
        let d = es[n - 1].decision;
        assert forall|i: int| 0 <= i < n implies lookup(table_from(es, n), #[trigger] es[i].capability) == Some(es[i].decision) by {
            table_insert_decides(t, id, d, es[i].capability);
        }
        assert forall|x: Seq<char>| (forall|i: int| 0 <= i < n ==> #[trigger] es[i].capability != x) implies lookup(table_from(es, n), x) is None by {
            table_insert_decides(t, id, d, x);
            assert(es[n - 1].capability != x);
        }
    }
}

/// A failed negotiation is refused for its first failing entry: every entry before it was
/// granted or mocked, and the error names that entry's capability, with the kind its status
/// gives (a denial, an id or signature the host lacks, or a mock of the wrong type).
pub proof fn first_failure_is_reported(entries: Seq<NegotiationEntryV>)
    ensures
        first_failure(entries) matches Some(i) ==> {
            &&& 0 <= i < entries.len()
            &&& forall|j: int| 0 <= j < i ==> #[trigger] is_success_status(entries[j].status)
            &&& !is_success_status(entries[i].status)
            &&& entry_failure(entries[i]) matches Some(p) && p.capability == entries[i].capability && p.kind == match entries[i].status {
                NegotiationStatus::Denied => PolicyErrorKind::DeniedCapability,
                NegotiationStatus::Unknown => PolicyErrorKind::UnsupportedCapabilityVersion,
                _ => if entries[i].decision is Grant {
                    PolicyErrorKind::UnsupportedCapabilityVersion
                } else {
                    PolicyErrorKind::MockTypeMismatch
                },
            }
        },
    decreases entries.len(),
{
    if entries.len() > 0 {
        let pre = entries.drop_last();
        first_failure_is_reported(pre);
        lemma_failure_iff(pre);
        if let Some(i) = first_failure(pre) {
            assert forall|j: int| 0 <= j < i implies #[trigger] is_success_status(entries[j].status) by {
                assert(pre[j] == entries[j]);
                assert(is_success_status(pre[j].status));
            }
            assert(pre[i] == entries[i]);
        } else {
            assert forall|j: int| 0 <= j < entries.len() - 1 implies #[trigger] is_success_status(entries[j].status) by {
                assert(pre[j] == entries[j]);
                assert(is_success_status(pre[j].status));
            }
        }
    }
}

} // verus!
