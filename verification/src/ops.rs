//! Generation-tagged bookkeeping for background operations.
//!
//! Each long-running operation kind (resolve, integrate, update-cache,
//! check-updates, lint) has at most one live handle at a time. Starting
//! an operation draws a fresh `RequestID` and fills the kind's slot;
//! messages coming back from background tasks carry the id they were
//! produced under, and the dispatcher applies a message only when its
//! id is the one currently live for its kind — anything else is stale
//! and is discarded without touching any state. Aborting or
//! superseding an operation clears its slot at once, and the id it
//! held is never issued again, so a straggler message from the old
//! task can never be mistaken for current.

use vstd::prelude::*;

use crate::lint::LintReport;
use crate::model::{ModConfig, ModSpecification};
use crate::request::{RequestCounter, RequestID};

verus! {

/// Per-identifier fetch progress as the user interface tracks it.
#[derive(Clone, Copy, Debug, PartialEq, Eq, Structural)]
pub enum SpecFetchProgress {
    Progress { progress: u64, size: u64 },
    Complete,
}

/// A fetch event as the store emits it, still naming the identifier it
/// concerns.
#[derive(Clone, Debug, PartialEq, Eq)]
pub enum FetchProgress {
    Progress { spec: ModSpecification, progress: u64, size: u64 },
    Complete { spec: ModSpecification },
}

impl FetchProgress {
    /// The identifier the event concerns.
    pub fn spec(&self) -> (r: &ModSpecification)
        ensures
            r@ == match self {
                FetchProgress::Progress { spec, .. } => spec@,
                FetchProgress::Complete { spec } => spec@,
            },
    {
        match self {
            FetchProgress::Progress { spec, .. } => spec,
            FetchProgress::Complete { spec } => spec,
        }
    }
}

impl From<FetchProgress> for SpecFetchProgress {
    /// Forget which identifier the event concerned.
    fn from(value: FetchProgress) -> (r: SpecFetchProgress) {
        match value {
            FetchProgress::Progress { spec: _, progress, size } => SpecFetchProgress::Progress {
                progress,
                size,
            },
            FetchProgress::Complete { .. } => SpecFetchProgress::Complete,
        }
    }
}

impl vstd::std_specs::convert::FromSpecImpl<FetchProgress> for SpecFetchProgress {
    open spec fn obeys_from_spec() -> bool {
        true
    }

    open spec fn from_spec(v: FetchProgress) -> SpecFetchProgress {
        match v {
            FetchProgress::Progress { spec: _, progress, size } => SpecFetchProgress::Progress {
                progress,
                size,
            },
            FetchProgress::Complete { .. } => SpecFetchProgress::Complete,
        }
    }
}

/// The five long-running operation kinds.
#[derive(Clone, Copy, Debug, PartialEq, Eq, Structural)]
pub enum OpKind {
    Resolve,
    Integrate,
    UpdateCache,
    CheckUpdates,
    Lint,
}

/// The views of a progress list: identifier and state, keyed by the
/// identifier.
pub open spec fn prog_views(s: Seq<(ModSpecification, SpecFetchProgress)>) -> Seq<
    (Seq<char>, SpecFetchProgress),
> {
    s.map_values(|p: (ModSpecification, SpecFetchProgress)| (p.0@, p.1))
}

/// The views of a per-identifier failure list.
pub open spec fn fail_views(s: Seq<(ModSpecification, String)>) -> Seq<(Seq<char>, Seq<char>)> {
    s.map_values(|p: (ModSpecification, String)| (p.0@, p.1@))
}

/// Set the state of `id`, replacing its first entry or appending one.
pub open spec fn upsert<V>(m: Seq<(Seq<char>, V)>, id: Seq<char>, v: V) -> Seq<(Seq<char>, V)>
    decreases m.len(),
{
    if m.len() == 0 {
        seq![(id, v)]
    } else if m.first().0 == id {
        seq![(id, v)] + m.drop_first()
    } else {
        seq![m.first()] + upsert(m.drop_first(), id, v)
    }
}

/// Where the key already stands, `upsert` is an update in place.
pub proof fn lemma_upsert_found<V>(m: Seq<(Seq<char>, V)>, id: Seq<char>, v: V, i: int)
    requires
        0 <= i < m.len(),
        m[i].0 == id,
        forall|j: int| 0 <= j < i ==> m[j].0 != id,
    ensures
        upsert(m, id, v) == m.update(i, (id, v)),
    decreases i,
{
    if i == 0 {
        assert(upsert(m, id, v) =~= m.update(0, (id, v)));
    } else {
        lemma_upsert_found(m.drop_first(), id, v, i - 1);
        assert(m.drop_first().update(i - 1, (id, v)) =~= m.update(i, (id, v)).drop_first());
        assert(upsert(m, id, v) =~= m.update(i, (id, v)));
    }
}

/// Where the key is new, `upsert` appends.
pub proof fn lemma_upsert_absent<V>(m: Seq<(Seq<char>, V)>, id: Seq<char>, v: V)
    requires
        forall|j: int| 0 <= j < m.len() ==> m[j].0 != id,
    ensures
        upsert(m, id, v) == m.push((id, v)),
    decreases m.len(),
{
    if m.len() == 0 {
        assert(upsert(m, id, v) =~= m.push((id, v)));
    } else {
        lemma_upsert_absent(m.drop_first(), id, v);
        assert(m.drop_first().push((id, v)) =~= m.push((id, v)).drop_first());
        assert(upsert(m, id, v) =~= m.push((id, v)));
    }
}

/// What a finished operation hands back in its terminal message.
#[derive(Clone, Debug, PartialEq, Eq)]
pub enum TerminalPayload {
    /// Nothing beyond success itself.
    Nothing,
    /// A lint run's assembled report.
    Report(LintReport),
    /// A resolve run's resolved configurations.
    Mods(Vec<ModConfig>),
}

/// What a message carries besides its kind and generation tag.
#[derive(Debug, PartialEq, Eq)]
pub enum MsgBody {
    /// One identifier's fetch moved forward.
    Progress { spec: ModSpecification, progress: u64, size: u64 },
    /// One identifier's fetch finished.
    Complete { spec: ModSpecification },
    /// One identifier failed on its own: recorded against that
    /// identifier alone, the batch goes on.
    ItemFailed { spec: ModSpecification, error: String },
    /// The operation's single terminal message: success with its
    /// payload, or a human-readable failure.
    Terminal { outcome: Result<TerminalPayload, String> },
}

/// One message from a background task to the dispatcher.
#[derive(Debug, PartialEq, Eq)]
pub struct OpMessage {
    pub kind: OpKind,
    pub rid: RequestID,
    pub body: MsgBody,
}

/// What dispatching one message did.
#[derive(Clone, Debug, PartialEq, Eq)]
pub enum Applied {
    /// The message's generation is not the live one: discarded.
    Stale,
    /// Progress recorded against the live handle.
    Progressed,
    /// The live operation finished; its slot is cleared.
    Finished(TerminalPayload),
    /// The live operation failed; its slot is cleared.
    Failed(String),
}

/// The live handle of one operation kind: its generation tag and its
/// accumulated per-identifier progress and failures.
#[derive(Clone, Debug, PartialEq, Eq)]
pub struct OpSlot {
    pub rid: RequestID,
    pub progress: Vec<(ModSpecification, SpecFetchProgress)>,
    pub failures: Vec<(ModSpecification, String)>,
}

/// One slot per operation kind plus the counter that tags them.
#[derive(Clone, Debug, PartialEq, Eq)]
pub struct OpRegistry {
    pub counter: RequestCounter,
    pub resolve: Option<OpSlot>,
    pub integrate: Option<OpSlot>,
    pub update_cache: Option<OpSlot>,
    pub check_updates: Option<OpSlot>,
    pub lint: Option<OpSlot>,
}

impl OpRegistry {
    /// The slot of a kind.
    pub open spec fn slot(self, k: OpKind) -> Option<OpSlot> {
        match k {
            OpKind::Resolve => self.resolve,
            OpKind::Integrate => self.integrate,
            OpKind::UpdateCache => self.update_cache,
            OpKind::CheckUpdates => self.check_updates,
            OpKind::Lint => self.lint,
        }
    }

    /// The generation currently live for a kind.
    pub open spec fn live_rid(self, k: OpKind) -> Option<u64> {
        match self.slot(k) {
            Some(s) => Some(s.rid.value),
            None => None,
        }
    }

    /// Whatever generation is live for `k` was issued by the counter.
    pub open spec fn rid_bounded(self, k: OpKind) -> bool {
        match self.live_rid(k) {
            Some(v) => v < self.counter.issued,
            None => true,
        }
    }

    /// Every live generation was issued by the counter, and no two
    /// kinds share one.
    pub open spec fn wf(self) -> bool {
        &&& forall|k: OpKind| #[trigger] self.rid_bounded(k)
        &&& forall|k1: OpKind, k2: OpKind|
            #![trigger self.live_rid(k1), self.live_rid(k2)]
            k1 != k2 && self.live_rid(k1) is Some ==> self.live_rid(k1) != self.live_rid(k2)
    }

    /// A fresh registry: no operation live, no id issued yet.
    pub fn new() -> (r: OpRegistry)
        ensures
            r.counter.issued == 0,
            forall|k: OpKind| r.slot(k) is None,
            r.wf(),
    {
        let r = OpRegistry {
            counter: RequestCounter::new(),
            resolve: None,
            integrate: None,
            update_cache: None,
            check_updates: None,
            lint: None,
        };
        proof {
            assert(forall|k: OpKind| r.slot(k) is None);
        }
        r
    }

    /// The generation currently live for a kind, if any.
    pub fn current(&self, kind: OpKind) -> (r: Option<RequestID>)
        ensures
            match r {
                Some(id) => self.live_rid(kind) == Some(id.value),
                None => self.live_rid(kind) is None,
            },
    {
        let slot = match kind {
            OpKind::Resolve => &self.resolve,
            OpKind::Integrate => &self.integrate,
            OpKind::UpdateCache => &self.update_cache,
            OpKind::CheckUpdates => &self.check_updates,
            OpKind::Lint => &self.lint,
        };
        match slot {
            Some(s) => Some(s.rid),
            None => None,
        }
    }

    /// Start an operation of a kind whose slot is free: the caller
    /// must have discarded any previous handle first — there is no
    /// implicit preemption. Returns the fresh generation tag.
    pub fn start(&mut self, kind: OpKind) -> (r: RequestID)
        requires
            old(self).slot(kind) is None,
            old(self).counter.issued < u64::MAX,
        ensures
            r.value == old(self).counter.issued,
            final(self).counter.issued == old(self).counter.issued + 1,
            final(self).live_rid(kind) == Some(r.value),
            match final(self).slot(kind) {
                Some(s) => s.rid == r && prog_views(s.progress@) == Seq::<
                    (Seq<char>, SpecFetchProgress),
                >::empty() && fail_views(s.failures@) == Seq::<(Seq<char>, Seq<char>)>::empty(),
                None => false,
            },
            forall|k: OpKind| k != kind ==> final(self).slot(k) == old(self).slot(k),
            final(self).rids() == rid_step(old(self).rids(), RidEvent::Start(kind)),
            old(self).wf() ==> final(self).wf(),
    {
        let rid = self.counter.next();
        let slot = Some(OpSlot { rid, progress: Vec::new(), failures: Vec::new() });
        match kind {
            OpKind::Resolve => {
                self.resolve = slot;
            },
            OpKind::Integrate => {
                self.integrate = slot;
            },
            OpKind::UpdateCache => {
                self.update_cache = slot;
            },
            OpKind::CheckUpdates => {
                self.check_updates = slot;
            },
            OpKind::Lint => {
                self.lint = slot;
            },
        }
        proof {
            assert(prog_views(Seq::<(ModSpecification, SpecFetchProgress)>::empty()) =~= Seq::<
                (Seq<char>, SpecFetchProgress),
            >::empty());
            assert(fail_views(Seq::<(ModSpecification, String)>::empty()) =~= Seq::<
                (Seq<char>, Seq<char>),
            >::empty());
            assert(forall|k: OpKind| k != kind ==> final(self).slot(k) == old(self).slot(k));
            if old(self).wf() {
                assert forall|k: OpKind| #[trigger] final(self).rid_bounded(k) by {
                    assert(old(self).rid_bounded(k));
                    if k != kind {
                        assert(final(self).live_rid(k) == old(self).live_rid(k));
                    }
                }
                assert forall|k1: OpKind, k2: OpKind|
                    #![trigger final(self).live_rid(k1), final(self).live_rid(k2)]
                    k1 != k2 && final(self).live_rid(k1) is Some implies final(self).live_rid(k1)
                    != final(self).live_rid(k2) by {
                    assert(old(self).rid_bounded(k1));
                    assert(old(self).rid_bounded(k2));
                    if k1 != kind {
                        assert(final(self).live_rid(k1) == old(self).live_rid(k1));
                    }
                    if k2 != kind {
                        assert(final(self).live_rid(k2) == old(self).live_rid(k2));
                    }
                }
            }
            assert(final(self).rids() =~= rid_step(old(self).rids(), RidEvent::Start(kind)));
        }
        rid
    }

    /// Drop the live handle of a kind, if any: the slot is free again
    /// at once. Stopping the background task itself is the embedder's
    /// business; whatever the task still sends under the old
    /// generation will be discarded as stale.
    pub fn abort(&mut self, kind: OpKind)
        ensures
            final(self).slot(kind) is None,
            final(self).counter == old(self).counter,
            forall|k: OpKind| k != kind ==> final(self).slot(k) == old(self).slot(k),
            final(self).rids() == rid_step(old(self).rids(), RidEvent::Abort(kind)),
            old(self).wf() ==> final(self).wf(),
    {
        match kind {
            OpKind::Resolve => {
                self.resolve = None;
            },
            OpKind::Integrate => {
                self.integrate = None;
            },
            OpKind::UpdateCache => {
                self.update_cache = None;
            },
            OpKind::CheckUpdates => {
                self.check_updates = None;
            },
            OpKind::Lint => {
                self.lint = None;
            },
        }
        proof {
            assert(forall|k: OpKind| k != kind ==> final(self).slot(k) == old(self).slot(k));
            if old(self).wf() {
                assert forall|k: OpKind| #[trigger] final(self).rid_bounded(k) by {
                    assert(old(self).rid_bounded(k));
                    if k != kind {
                        assert(final(self).live_rid(k) == old(self).live_rid(k));
                    }
                }
                assert forall|k1: OpKind, k2: OpKind|
                    #![trigger final(self).live_rid(k1), final(self).live_rid(k2)]
                    k1 != k2 && final(self).live_rid(k1) is Some implies final(self).live_rid(k1)
                    != final(self).live_rid(k2) by {
                    if k1 != kind {
                        assert(final(self).live_rid(k1) == old(self).live_rid(k1));
                    }
                    if k2 != kind {
                        assert(final(self).live_rid(k2) == old(self).live_rid(k2));
                    }
                }
            }
            assert(final(self).rids() =~= rid_step(old(self).rids(), RidEvent::Abort(kind)));
        }
    }
}

fn set_progress(
    progress: &mut Vec<(ModSpecification, SpecFetchProgress)>,
    spec: ModSpecification,
    v: SpecFetchProgress,
)
    ensures
        prog_views(final(progress)@) == upsert(prog_views(old(progress)@), spec@, v),
{
    let ghost m = prog_views(progress@);
    let mut i: usize = 0;
    while i < progress.len()
        invariant
            i <= progress@.len(),
            m == prog_views(progress@),
            m == prog_views(old(progress)@),
            m.len() == progress@.len(),
            forall|j: int| 0 <= j < i ==> m[j].0 != spec@,
        decreases progress@.len() - i,
    {
        proof {
            assert(m[i as int] == (progress@[i as int].0@, progress@[i as int].1));
        }
        if progress[i].0.url == spec.url {
            progress.set(i, (spec, v));
            proof {
                lemma_upsert_found(m, spec@, v, i as int);
                assert(prog_views(progress@) =~= m.update(i as int, (spec@, v)));
            }
            return ;
        }
        i = i + 1;
    }
    proof {
        lemma_upsert_absent(m, spec@, v);
    }
    progress.push((spec, v));
    proof {
        assert(prog_views(progress@) =~= m.push((spec@, v)));
    }
}

fn set_failure(
    failures: &mut Vec<(ModSpecification, String)>,
    spec: ModSpecification,
    error: String,
)
    ensures
        fail_views(final(failures)@) == upsert(fail_views(old(failures)@), spec@, error@),
{
    let ghost m = fail_views(failures@);
    let mut i: usize = 0;
    while i < failures.len()
        invariant
            i <= failures@.len(),
            m == fail_views(failures@),
            m == fail_views(old(failures)@),
            m.len() == failures@.len(),
            forall|j: int| 0 <= j < i ==> m[j].0 != spec@,
        decreases failures@.len() - i,
    {
        proof {
            assert(m[i as int] == (failures@[i as int].0@, failures@[i as int].1@));
        }
        if failures[i].0.url == spec.url {
            failures.set(i, (spec, error));
            proof {
                lemma_upsert_found(m, spec@, error@, i as int);
                assert(fail_views(failures@) =~= m.update(i as int, (spec@, error@)));
            }
            return ;
        }
        i = i + 1;
    }
    proof {
        lemma_upsert_absent(m, spec@, error@);
    }
    failures.push((spec, error));
    proof {
        assert(fail_views(failures@) =~= m.push((spec@, error@)));
    }
}

fn dispatch_slot(slot: &mut Option<OpSlot>, rid: RequestID, body: MsgBody) -> (r: Applied)
    ensures
        (match *old(slot) {
            Some(s) => s.rid.value != rid.value,
            None => true,
        }) ==> *final(slot) == *old(slot) && r == Applied::Stale,
        (match *old(slot) {
            Some(s) => s.rid.value == rid.value,
            None => false,
        }) ==> match body {
            MsgBody::Progress { spec, progress, size } => match (*final(slot), *old(slot)) {
                (Some(ns), Some(os)) => ns.rid == os.rid && prog_views(ns.progress@) == upsert(
                    prog_views(os.progress@),
                    spec@,
                    SpecFetchProgress::Progress { progress, size },
                ) && ns.failures == os.failures && r == Applied::Progressed,
                _ => false,
            },
            MsgBody::Complete { spec } => match (*final(slot), *old(slot)) {
                (Some(ns), Some(os)) => ns.rid == os.rid && prog_views(ns.progress@) == upsert(
                    prog_views(os.progress@),
                    spec@,
                    SpecFetchProgress::Complete,
                ) && ns.failures == os.failures && r == Applied::Progressed,
                _ => false,
            },
            MsgBody::ItemFailed { spec, error } => match (*final(slot), *old(slot)) {
                (Some(ns), Some(os)) => ns.rid == os.rid && ns.progress == os.progress
                    && fail_views(ns.failures@) == upsert(fail_views(os.failures@), spec@, error@)
                    && r == Applied::Progressed,
                _ => false,
            },
            MsgBody::Terminal { outcome } => *final(slot) is None && r == (match outcome {
                Ok(p) => Applied::Finished(p),
                Err(e) => Applied::Failed(e),
            }),
        },
{
    let matched = match &*slot {
        Some(s) => s.rid.value == rid.value,
        None => false,
    };
    if !matched {
        return Applied::Stale;
    }
    match body {
        MsgBody::Progress { spec, progress, size } => {
            match slot {
                Some(s) => {
                    set_progress(&mut s.progress, spec, SpecFetchProgress::Progress {
                        progress,
                        size,
                    });
                },
                None => {},
            }
            Applied::Progressed
        },
        MsgBody::Complete { spec } => {
            match slot {
                Some(s) => {
                    set_progress(&mut s.progress, spec, SpecFetchProgress::Complete);
                },
                None => {},
            }
            Applied::Progressed
        },
        MsgBody::ItemFailed { spec, error } => {
            match slot {
                Some(s) => {
                    set_failure(&mut s.failures, spec, error);
                },
                None => {},
            }
            Applied::Progressed
        },
        MsgBody::Terminal { outcome } => {
            *slot = None;
            match outcome {
                Ok(p) => Applied::Finished(p),
                Err(e) => Applied::Failed(e),
            }
        },
    }
}

impl OpRegistry {
    /// Apply one message: against the live generation of its kind it
    /// records progress or finalizes the operation; against anything
    /// else it is stale and changes nothing. Messages are applied in
    /// the order they are drained.
    pub fn dispatch(&mut self, msg: OpMessage) -> (r: Applied)
        ensures
            final(self).counter == old(self).counter,
            forall|k: OpKind| k != msg.kind ==> final(self).slot(k) == old(self).slot(k),
            old(self).live_rid(msg.kind) != Some(msg.rid.value) ==> *final(self) == *old(self)
                && r == Applied::Stale,
            old(self).live_rid(msg.kind) == Some(msg.rid.value) ==> match msg.body {
                MsgBody::Progress { spec, progress, size } => match (
                    final(self).slot(msg.kind),
                    old(self).slot(msg.kind),
                ) {
                    (Some(ns), Some(os)) => ns.rid == os.rid && prog_views(ns.progress@) == upsert(
                        prog_views(os.progress@),
                        spec@,
                        SpecFetchProgress::Progress { progress, size },
                    ) && ns.failures == os.failures && r == Applied::Progressed,
                    _ => false,
                },
                MsgBody::Complete { spec } => match (
                    final(self).slot(msg.kind),
                    old(self).slot(msg.kind),
                ) {
                    (Some(ns), Some(os)) => ns.rid == os.rid && prog_views(ns.progress@) == upsert(
                        prog_views(os.progress@),
                        spec@,
                        SpecFetchProgress::Complete,
                    ) && ns.failures == os.failures && r == Applied::Progressed,
                    _ => false,
                },
                MsgBody::ItemFailed { spec, error } => match (
                    final(self).slot(msg.kind),
                    old(self).slot(msg.kind),
                ) {
                    (Some(ns), Some(os)) => ns.rid == os.rid && ns.progress == os.progress
                        && fail_views(ns.failures@) == upsert(
                        fail_views(os.failures@),
                        spec@,
                        error@,
                    ) && r == Applied::Progressed,
                    _ => false,
                },
                MsgBody::Terminal { outcome } => final(self).slot(msg.kind) is None && r == (
                match outcome {
                    Ok(p) => Applied::Finished(p),
                    Err(e) => Applied::Failed(e),
                }),
            },
            final(self).rids() == rid_step(
                old(self).rids(),
                RidEvent::Deliver {
                    kind: msg.kind,
                    rid: msg.rid.value as nat,
                    terminal: msg.body is Terminal,
                },
            ),
            old(self).wf() ==> final(self).wf(),
    {
        let kind = msg.kind;
        let rid = msg.rid;
        let body = msg.body;
        let r = match kind {
            OpKind::Resolve => dispatch_slot(&mut self.resolve, rid, body),
            OpKind::Integrate => dispatch_slot(&mut self.integrate, rid, body),
            OpKind::UpdateCache => dispatch_slot(&mut self.update_cache, rid, body),
            OpKind::CheckUpdates => dispatch_slot(&mut self.check_updates, rid, body),
            OpKind::Lint => dispatch_slot(&mut self.lint, rid, body),
        };
        proof {
            assert(forall|k: OpKind| k != kind ==> final(self).slot(k) == old(self).slot(k));
            if old(self).live_rid(kind) != Some(rid.value) {
                assert(final(self).slot(kind) == old(self).slot(kind));
                assert(*final(self) =~= *old(self));
            }
            if old(self).wf() {
                assert forall|k: OpKind| #[trigger] final(self).rid_bounded(k) by {
                    assert(old(self).rid_bounded(k));
                    if k != kind {
                        assert(final(self).live_rid(k) == old(self).live_rid(k));
                    }
                }
                assert forall|k1: OpKind, k2: OpKind|
                    #![trigger final(self).live_rid(k1), final(self).live_rid(k2)]
                    k1 != k2 && final(self).live_rid(k1) is Some implies final(self).live_rid(k1)
                    != final(self).live_rid(k2) by {
                    if k1 != kind {
                        assert(final(self).live_rid(k1) == old(self).live_rid(k1));
                    }
                    if k2 != kind {
                        assert(final(self).live_rid(k2) == old(self).live_rid(k2));
                    }
                }
            }
            assert(final(self).rids() =~= rid_step(
                old(self).rids(),
                RidEvent::Deliver {
                    kind: msg.kind,
                    rid: msg.rid.value as nat,
                    terminal: msg.body is Terminal,
                },
            ));
        }
        r
    }
}

/// The generations alone: what staleness detection rests on.
#[verifier::ext_equal]
pub ghost struct RidState {
    pub next: nat,
    pub resolve: Option<nat>,
    pub integrate: Option<nat>,
    pub update_cache: Option<nat>,
    pub check_updates: Option<nat>,
    pub lint: Option<nat>,
}

/// The live generation of a kind, in the abstracted state.
pub open spec fn rid_of(rs: RidState, k: OpKind) -> Option<nat> {
    match k {
        OpKind::Resolve => rs.resolve,
        OpKind::Integrate => rs.integrate,
        OpKind::UpdateCache => rs.update_cache,
        OpKind::CheckUpdates => rs.check_updates,
        OpKind::Lint => rs.lint,
    }
}

/// The abstracted state with one kind's generation replaced.
pub open spec fn with_rid(rs: RidState, k: OpKind, v: Option<nat>) -> RidState {
    match k {
        OpKind::Resolve => RidState { resolve: v, ..rs },
        OpKind::Integrate => RidState { integrate: v, ..rs },
        OpKind::UpdateCache => RidState { update_cache: v, ..rs },
        OpKind::CheckUpdates => RidState { check_updates: v, ..rs },
        OpKind::Lint => RidState { lint: v, ..rs },
    }
}

impl OpRegistry {
    /// The registry's generations alone.
    pub open spec fn rids(self) -> RidState {
        RidState {
            next: self.counter.issued as nat,
            resolve: match self.resolve {
                Some(s) => Some(s.rid.value as nat),
                None => None,
            },
            integrate: match self.integrate {
                Some(s) => Some(s.rid.value as nat),
                None => None,
            },
            update_cache: match self.update_cache {
                Some(s) => Some(s.rid.value as nat),
                None => None,
            },
            check_updates: match self.check_updates {
                Some(s) => Some(s.rid.value as nat),
                None => None,
            },
            lint: match self.lint {
                Some(s) => Some(s.rid.value as nat),
                None => None,
            },
        }
    }
}

/// Everything that can touch the generations.
pub ghost enum RidEvent {
    Start(OpKind),
    Abort(OpKind),
    Deliver { kind: OpKind, rid: nat, terminal: bool },
}

/// How one event moves the abstracted state: exactly as `start`,
/// `abort` and `dispatch` move the registry.
pub open spec fn rid_step(rs: RidState, e: RidEvent) -> RidState {
    match e {
        RidEvent::Start(k) => if rid_of(rs, k) is None && rs.next < u64::MAX {
            let filled = with_rid(rs, k, Some(rs.next));
            RidState { next: rs.next + 1, ..filled }
        } else {
            rs
        },
        RidEvent::Abort(k) => with_rid(rs, k, None),
        RidEvent::Deliver { kind, rid, terminal } => if rid_of(rs, kind) == Some(rid) && terminal {
            with_rid(rs, kind, None)
        } else {
            rs
        },
    }
}

/// The abstracted state after a whole sequence of events.
pub open spec fn rid_run(rs: RidState, events: Seq<RidEvent>) -> RidState
    decreases events.len(),
{
    if events.len() == 0 {
        rs
    } else {
        rid_run(rid_step(rs, events.first()), events.drop_first())
    }
}

/// A generation that is out of circulation: below the counter and
/// live nowhere.
pub open spec fn barred(rs: RidState, x: nat) -> bool {
    &&& x < rs.next
    &&& forall|k: OpKind| #[trigger] rid_of(rs, k) != Some(x)
}

proof fn lemma_barred_step(rs: RidState, x: nat, e: RidEvent)
    requires
        barred(rs, x),
    ensures
        barred(rid_step(rs, e), x),
{
    let post = rid_step(rs, e);
    assert forall|k: OpKind| #[trigger] rid_of(post, k) != Some(x) by {
        assert(rid_of(rs, k) != Some(x));
        match e {
            RidEvent::Start(k2) => {
                assert(rid_of(rs, k2) != Some(x));
            },
            RidEvent::Abort(_) => {},
            RidEvent::Deliver { .. } => {},
        }
    }
}

/// Once a generation is out of circulation it stays out, whatever
/// operations are started, aborted or finished afterwards: ids are
/// never reused.
pub proof fn lemma_barred_stays_barred(rs: RidState, x: nat, events: Seq<RidEvent>)
    requires
        barred(rs, x),
    ensures
        barred(rid_run(rs, events), x),
    decreases events.len(),
{
    if events.len() > 0 {
        lemma_barred_step(rs, x, events.first());
        lemma_barred_stays_barred(rid_step(rs, events.first()), x, events.drop_first());
    }
}

/// Aborting a live handle bars its generation: dropping the handle
/// puts the id below the counter and out of every slot.
pub proof fn lemma_abort_bars_live_rid(r: OpRegistry, k: OpKind, x: nat)
    requires
        r.wf(),
        r.live_rid(k) == Some(x as u64),
        x <= u64::MAX,
    ensures
        barred(rid_step(r.rids(), RidEvent::Abort(k)), x),
{
    let post = rid_step(r.rids(), RidEvent::Abort(k));
    assert(r.rid_bounded(k));
    assert forall|k2: OpKind| #[trigger] rid_of(post, k2) != Some(x) by {
        if k2 != k {
            assert(r.live_rid(k) is Some);
            assert(r.live_rid(k) != r.live_rid(k2));
            assert(rid_of(post, k2) == rid_of(r.rids(), k2));
        }
    }
}

/// A message tagged with a barred generation is discarded wherever it
/// arrives: no state the system can reach from here ever applies it.
pub proof fn lemma_barred_message_never_applies(
    rs: RidState,
    x: nat,
    events: Seq<RidEvent>,
    kind: OpKind,
    terminal: bool,
)
    requires
        barred(rs, x),
    ensures
        rid_step(rid_run(rs, events), RidEvent::Deliver { kind, rid: x, terminal }) == rid_run(
            rs,
            events,
        ),
{
    lemma_barred_stays_barred(rs, x, events);
}

} // verus!
