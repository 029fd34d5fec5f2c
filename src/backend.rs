use vstd::prelude::*;
use crate::algorithm::CacheAlgorithm;
use crate::record::{FileRecord, SimError};
use crate::wire::{
    ENVELOPE_LEN, FIXED_LEN, envelope_bytes, fixed_bytes, encode_envelope, encode_fixed,
    envelope_record, fixed_record, lemma_envelope_round_trip, lemma_fixed_round_trip,
};

verus! {

/// How a request crosses into the sandbox.
#[derive(Clone, Copy, PartialEq, Eq, Structural, Debug)]
pub enum Marshaling {
    /// Label and size as two primitive arguments of the exported function.
    RawArgument,
    /// An envelope written into sandbox memory, passed as pointer and length.
    SerializedEnvelope,
    /// The record's fixed layout copied into sandbox memory, passed as
    /// pointer and length.
    ZeroCopyCast,
}

/// One step that the owner of a sandbox instance performs for a backend.
#[derive(Debug)]
pub enum SandboxAction {
    /// Create a fresh module instance with fresh memory.
    Instantiate,
    /// Look up the instance's memory and exported functions.
    ResolveExports,
    /// Call the exported initializer with the capacity.
    CallInitialize { capacity: i64 },
    /// Call the exported request function with label and size.
    CallPair { label: i32, size: i64 },
    /// Copy bytes into the instance's memory at an offset.
    WriteMemory { offset: usize, bytes: Vec<u8> },
    /// Call the exported request function with pointer and length.
    CallBuffer { ptr: usize, len: usize },
    /// Call the exported stats function.
    CallStats,
}

/// The offset in sandbox memory where requests are written.
pub const REQUEST_OFFSET: usize = 1024;

/// 1 for a step that sets up the instance, 0 for any other.
pub open spec fn setup_weight(a: SandboxAction) -> nat {
    if a is Instantiate || a is ResolveExports {
        1
    } else {
        0
    }
}

/// The instance-setup steps (instantiations and export resolutions) in `s`.
pub open spec fn setup_count(s: Seq<SandboxAction>) -> nat
    decreases s.len(),
{
    if s.len() == 0 {
        0
    } else {
        setup_count(s.drop_last()) + setup_weight(s.last())
    }
}

/// A backend that runs its policy inside a sandbox instance.
#[derive(Clone, Copy, PartialEq, Eq, Structural, Debug)]
pub struct SandboxBackend {
    pub marshaling: Marshaling,
    /// Resolve the instance's exports once at initialization and reuse them,
    /// instead of resolving them again for every call.
    pub cached: bool,
}

/// The steps of `initialize`: one instance, its exports, and the call that
/// sets the capacity.
pub open spec fn is_initialize_plan(capacity: i64, p: Seq<SandboxAction>) -> bool {
    &&& p.len() == 3
    &&& p[0] is Instantiate
    &&& p[1] is ResolveExports
    &&& p[2] == SandboxAction::CallInitialize { capacity }
}

/// The steps that carry `r` to the sandbox under `m`, without any setup.
pub open spec fn is_transfer_plan(m: Marshaling, r: FileRecord, p: Seq<SandboxAction>) -> bool {
    match m {
        Marshaling::RawArgument => p.len() == 1 && p[0] == SandboxAction::CallPair {
            label: r.label,
            size: r.size,
        },
        Marshaling::SerializedEnvelope => {
            &&& p.len() == 2
            &&& p[0] matches SandboxAction::WriteMemory { offset, bytes }
                && offset == REQUEST_OFFSET && bytes@ == envelope_bytes(r)
            &&& p[1] == SandboxAction::CallBuffer { ptr: REQUEST_OFFSET, len: ENVELOPE_LEN }
        },
        Marshaling::ZeroCopyCast => {
            &&& p.len() == 2
            &&& p[0] matches SandboxAction::WriteMemory { offset, bytes }
                && offset == REQUEST_OFFSET && bytes@ == fixed_bytes(r)
            &&& p[1] == SandboxAction::CallBuffer { ptr: REQUEST_OFFSET, len: FIXED_LEN }
        },
    }
}

/// The steps of `send_request`: an uncached backend resolves the exports
/// again first.
pub open spec fn is_request_plan(b: SandboxBackend, r: FileRecord, p: Seq<SandboxAction>) -> bool {
    if b.cached {
        is_transfer_plan(b.marshaling, r, p)
    } else {
        p.len() >= 1 && p[0] is ResolveExports && is_transfer_plan(b.marshaling, r, p.drop_first())
    }
}

/// The steps of `stats`.
pub open spec fn is_stats_plan(b: SandboxBackend, p: Seq<SandboxAction>) -> bool {
    if b.cached {
        p.len() == 1 && p[0] is CallStats
    } else {
        p.len() == 2 && p[0] is ResolveExports && p[1] is CallStats
    }
}

/// All the steps of `ps`, one plan after the other.
pub open spec fn concat_plans(ps: Seq<Seq<SandboxAction>>) -> Seq<SandboxAction>
    decreases ps.len(),
{
    if ps.len() == 0 {
        Seq::empty()
    } else {
        concat_plans(ps.drop_last()) + ps.last()
    }
}

proof fn lemma_setup_count_append(a: Seq<SandboxAction>, b: Seq<SandboxAction>)
    ensures
        setup_count(a + b) == setup_count(a) + setup_count(b),
    decreases b.len(),
{
    if b.len() > 0 {
        assert((a + b).drop_last() =~= a + b.drop_last());
        assert((a + b).last() == b.last());
        lemma_setup_count_append(a, b.drop_last());
    } else {
        assert(a + b =~= a);
    }
}

proof fn lemma_setup_count_small(p: Seq<SandboxAction>)
    requires
        p.len() <= 2,
    ensures
        p.len() == 0 ==> setup_count(p) == 0,
        p.len() == 1 ==> setup_count(p) == setup_weight(p[0]),
        p.len() == 2 ==> setup_count(p) == setup_weight(p[0]) + setup_weight(p[1]),
{
    if p.len() == 1 {
        assert(p.drop_last().len() == 0);
        assert(setup_count(p.drop_last()) == 0);
        assert(p.last() == p[0]);
    } else if p.len() == 2 {
        let q = p.drop_last();
        assert(q.len() == 1);
        assert(q.drop_last().len() == 0);
        assert(setup_count(q.drop_last()) == 0);
        assert(q.last() == p[0]);
        assert(setup_count(q) == setup_count(q.drop_last()) + setup_weight(q.last()));
        assert(p.last() == p[1]);
    }
}

proof fn lemma_request_setup_count(b: SandboxBackend, r: FileRecord, p: Seq<SandboxAction>)
    requires
        is_request_plan(b, r, p),
    ensures
        setup_count(p) == if b.cached {
            0nat
        } else {
            1nat
        },
{
    if b.cached {
        lemma_setup_count_small(p);
    } else {
        let t = p.drop_first();
        lemma_setup_count_small(t);
        lemma_setup_count_append(seq![p[0]], t);
        lemma_setup_count_small(seq![p[0]]);
        assert(seq![p[0]] + t =~= p);
    }
}

/// Over a run of `initialize`, one request per record of `trace` and
/// `stats`, a cached backend sets its instance up exactly once (one
/// instantiation, one export resolution), while an uncached one resolves the
/// exports again for every later call.
pub proof fn lemma_run_setup_count(
    b: SandboxBackend,
    capacity: i64,
    trace: Seq<FileRecord>,
    init: Seq<SandboxAction>,
    requests: Seq<Seq<SandboxAction>>,
    stats: Seq<SandboxAction>,
)
    requires
        is_initialize_plan(capacity, init),
        requests.len() == trace.len(),
        forall|i: int| 0 <= i < trace.len() ==> is_request_plan(b, trace[i], #[trigger] requests[i]),
        is_stats_plan(b, stats),
    ensures
        setup_count(init + concat_plans(requests) + stats) == if b.cached {
            2
        } else {
            3 + trace.len()
        },
    decreases trace.len(),
{
    lemma_requests_setup_count(b, trace, requests);
    lemma_setup_count_append(init, concat_plans(requests));
    lemma_setup_count_append(init + concat_plans(requests), stats);
    assert(init =~= seq![init[0]] + seq![init[1]] + seq![init[2]]);
    lemma_setup_count_append(seq![init[0]] + seq![init[1]], seq![init[2]]);
    lemma_setup_count_append(seq![init[0]], seq![init[1]]);
    lemma_setup_count_small(seq![init[0]]);
    lemma_setup_count_small(seq![init[1]]);
    lemma_setup_count_small(seq![init[2]]);
    lemma_setup_count_small(stats);
}

proof fn lemma_requests_setup_count(
    b: SandboxBackend,
    trace: Seq<FileRecord>,
    requests: Seq<Seq<SandboxAction>>,
)
    requires
        requests.len() == trace.len(),
        forall|i: int| 0 <= i < trace.len() ==> is_request_plan(b, trace[i], #[trigger] requests[i]),
    ensures
        setup_count(concat_plans(requests)) == if b.cached {
            0
        } else {
            trace.len()
        },
    decreases trace.len(),
{
    if trace.len() > 0 {
        let n = trace.len() - 1;
        assert forall|i: int| 0 <= i < trace.drop_last().len() implies is_request_plan(
            b,
            trace.drop_last()[i],
            #[trigger] requests.drop_last()[i],
        ) by {
            assert(requests.drop_last()[i] == requests[i]);
        }
        lemma_requests_setup_count(b, trace.drop_last(), requests.drop_last());
        lemma_setup_count_append(concat_plans(requests.drop_last()), requests.last());
        assert(is_request_plan(b, trace[n], requests[n]));
        lemma_request_setup_count(b, trace[n], requests[n]);
    }
}

/// The record that the policy inside the sandbox reads from the transfer
/// steps `p` under `m`.
pub open spec fn received_record(m: Marshaling, p: Seq<SandboxAction>) -> Option<FileRecord> {
    match m {
        Marshaling::RawArgument => match p[0] {
            SandboxAction::CallPair { label, size } => Some(FileRecord { label, size }),
            _ => None,
        },
        Marshaling::SerializedEnvelope => match p[0] {
            SandboxAction::WriteMemory { offset: _, bytes } => envelope_record(bytes@),
            _ => None,
        },
        Marshaling::ZeroCopyCast => match p[0] {
            SandboxAction::WriteMemory { offset: _, bytes } => fixed_record(bytes@),
            _ => None,
        },
    }
}

/// Every marshaling hands the policy inside the sandbox exactly the record
/// that was sent, so that the policy sees the same trace whichever backend
/// carries it.
pub proof fn lemma_transfer_preserves_record(m: Marshaling, r: FileRecord, p: Seq<SandboxAction>)
    requires
        is_transfer_plan(m, r, p),
    ensures
        received_record(m, p) == Some(r),
{
    lemma_envelope_round_trip(r);
    lemma_fixed_round_trip(r);
}

impl SandboxBackend {
    pub fn new(marshaling: Marshaling, cached: bool) -> (r: SandboxBackend)
        ensures
            r.marshaling == marshaling,
            r.cached == cached,
    {
        SandboxBackend { marshaling, cached }
    }

    /// The steps that set up a run with the given capacity.
    pub fn initialize_plan(&self, capacity: i64) -> (r: Vec<SandboxAction>)
        ensures
            is_initialize_plan(capacity, r@),
    {
        vec![
            SandboxAction::Instantiate,
            SandboxAction::ResolveExports,
            SandboxAction::CallInitialize { capacity },
        ]
    }

    /// The steps that replay one record.
    pub fn request_plan(&self, record: &FileRecord) -> (r: Vec<SandboxAction>)
        ensures
            is_request_plan(*self, *record, r@),
    {
        let mut p: Vec<SandboxAction> = Vec::new();
        if !self.cached {
            p.push(SandboxAction::ResolveExports);
        }
        match self.marshaling {
            Marshaling::RawArgument => {
                p.push(SandboxAction::CallPair { label: record.label, size: record.size });
            },
            Marshaling::SerializedEnvelope => {
                let bytes = encode_envelope(record);
                p.push(SandboxAction::WriteMemory { offset: REQUEST_OFFSET, bytes });
                p.push(SandboxAction::CallBuffer { ptr: REQUEST_OFFSET, len: ENVELOPE_LEN });
            },
            Marshaling::ZeroCopyCast => {
                let bytes = encode_fixed(record);
                p.push(SandboxAction::WriteMemory { offset: REQUEST_OFFSET, bytes });
                p.push(SandboxAction::CallBuffer { ptr: REQUEST_OFFSET, len: FIXED_LEN });
            },
        }
        proof {
            if !self.cached {
                assert(p@.drop_first() =~= p@.subrange(1, p@.len() as int));
            }
        }
        p
    }

    /// The steps that read the counters.
    pub fn stats_plan(&self) -> (r: Vec<SandboxAction>)
        ensures
            is_stats_plan(*self, r@),
    {
        if self.cached {
            vec![SandboxAction::CallStats]
        } else {
            vec![SandboxAction::ResolveExports, SandboxAction::CallStats]
        }
    }
}

/// A backend that calls its policy in process.
pub struct NativePolicyModule<A> {
    alg: Option<A>,
}

impl<A: CacheAlgorithm> NativePolicyModule<A> {
    /// The policy, once `initialize` has run.
    pub closed spec fn policy(&self) -> Option<A> {
        self.alg
    }

    pub fn new() -> (r: Self)
        ensures
            r.policy() is None,
    {
        NativePolicyModule { alg: None }
    }

    /// Starts a run with a fresh policy of the given capacity.
    pub fn initialize(&mut self, size: i64)
        requires
            size >= 0,
        ensures
            final(self).policy() is Some,
            final(self).policy()->Some_0.inv(),
            final(self).policy()->Some_0.capacity() == size,
            final(self).policy()->Some_0.events() == 0,
            final(self).policy()->Some_0.hits() == 0,
            final(self).policy()->Some_0.used() == 0,
            forall|l: i32| !final(self).policy()->Some_0.holds(l),
    {
        self.alg = Some(A::new(size));
    }

    /// Replays one record through the policy.
    pub fn send_request(&mut self, file: FileRecord) -> (r: Result<(), SimError>)
        requires
            old(self).policy() is Some,
            old(self).policy()->Some_0.inv(),
            old(self).policy()->Some_0.events() < i32::MAX,
            file.size >= 0,
        ensures
            final(self).policy() is Some,
            final(self).policy()->Some_0.inv(),
            final(self).policy()->Some_0.capacity() == old(self).policy()->Some_0.capacity(),
            final(self).policy()->Some_0.used() <= final(self).policy()->Some_0.capacity(),
            final(self).policy()->Some_0.hits() <= final(self).policy()->Some_0.events(),
            file.size > old(self).policy()->Some_0.capacity() <==> r matches Err(SimError::OversizedRecord),
            file.size <= old(self).policy()->Some_0.capacity() ==> r is Ok,
            !(r matches Err(SimError::EvictedJustInserted)),
            r is Err ==> {
                &&& final(self).policy()->Some_0.events() == old(self).policy()->Some_0.events()
                &&& final(self).policy()->Some_0.hits() == old(self).policy()->Some_0.hits()
                &&& final(self).policy()->Some_0.used() == old(self).policy()->Some_0.used()
            },
            r is Ok ==> {
                &&& final(self).policy()->Some_0.events() == old(self).policy()->Some_0.events()
                    + 1
                &&& final(self).policy()->Some_0.hits() == old(self).policy()->Some_0.hits()
                    + if old(self).policy()->Some_0.holds(file.label) {
                    1int
                } else {
                    0int
                }
                &&& final(self).policy()->Some_0.holds(file.label)
            },
    {
        match &mut self.alg {
            Some(a) => a.simulate(file),
            None => Err(SimError::OversizedRecord),
        }
    }

    /// The pair (events, hits) of the policy.
    pub fn stats(&self) -> (r: (i32, i32))
        requires
            self.policy() is Some,
            self.policy()->Some_0.inv(),
        ensures
            r.0 == self.policy()->Some_0.events(),
            r.1 == self.policy()->Some_0.hits(),
    {
        match &self.alg {
            Some(a) => a.stats(),
            None => (0, 0),
        }
    }
}

} // verus!
