//! The per-endpoint observation collector: a state machine that consumes
//! pending-transaction notifications, keeps the first-seen timestamp of each
//! transaction addressed to the configured target, and completes once the
//! configured number of observations has been gathered.

use vstd::prelude::*;
use crate::ids::{Address, TxId};

verus! {

/// One recorded sighting: a transaction identifier together with the local
/// wall-clock time, in milliseconds since the epoch, at which this endpoint
/// first reported it.
#[derive(Clone, Copy, PartialEq, Eq, Structural, Debug)]
pub struct Observation {
    pub id: TxId,
    pub timestamp_millis: u128,
}

/// Whether no transaction identifier occurs twice in `s`.
pub open spec fn ids_unique(s: Seq<Observation>) -> bool {
    forall|i: int, j: int| 0 <= i < j < s.len() ==> (#[trigger] s[i]).id != (#[trigger] s[j]).id
}

/// The observation sequence read as a map from transaction identifier to
/// first-seen timestamp.
pub open spec fn obs_map_of(s: Seq<Observation>) -> Map<TxId, u128>
    decreases s.len(),
{
    if s.len() == 0 {
        Map::empty()
    } else {
        obs_map_of(s.drop_last()).insert(s.last().id, s.last().timestamp_millis)
    }
}

/// An identifier lies in the map of `s` exactly where some entry of `s`
/// carries it.
pub proof fn lemma_obs_map_domain(s: Seq<Observation>, id: TxId)
    ensures
        obs_map_of(s).dom().contains(id) <==> exists|i: int|
            0 <= i < s.len() && (#[trigger] s[i]).id == id,
    decreases s.len(),
{
    if s.len() > 0 {
        lemma_obs_map_domain(s.drop_last(), id);
        if s.last().id == id {
            assert(s[s.len() - 1].id == id);
        } else if obs_map_of(s).dom().contains(id) {
            let i = choose|i: int| 0 <= i < s.len() - 1 && (#[trigger] s.drop_last()[i]).id == id;
            assert(s[i].id == id);
        } else {
            assert forall|i: int| 0 <= i < s.len() implies (#[trigger] s[i]).id != id by {
                if i < s.len() - 1 {
                    assert(s.drop_last()[i] == s[i]);
                }
            }
        }
    }
}

/// With unique identifiers, the entry that carries an identifier gives its
/// timestamp in the map of `s`.
pub proof fn lemma_obs_map_index(s: Seq<Observation>, i: int)
    requires
        ids_unique(s),
        0 <= i < s.len(),
    ensures
        obs_map_of(s).dom().contains(s[i].id),
        obs_map_of(s)[s[i].id] == s[i].timestamp_millis,
    decreases s.len(),
{
    lemma_obs_map_domain(s, s[i].id);
    if s.len() > 0 && i < s.len() - 1 {
        assert(forall|k: int, l: int|
            0 <= k < l < s.len() - 1 ==> (#[trigger] s.drop_last()[k]).id != (
            #[trigger] s.drop_last()[l]).id);
        lemma_obs_map_index(s.drop_last(), i);
        assert(s.drop_last()[i] == s[i]);
        assert(s[i].id != s.last().id);
    }
}

/// With unique identifiers, the map of `s` has exactly one entry per element
/// of `s`.
pub proof fn lemma_obs_map_len(s: Seq<Observation>)
    requires
        ids_unique(s),
    ensures
        obs_map_of(s).dom().finite(),
        obs_map_of(s).dom().len() == s.len(),
    decreases s.len(),
{
    if s.len() > 0 {
        assert(forall|k: int, l: int|
            0 <= k < l < s.len() - 1 ==> (#[trigger] s.drop_last()[k]).id != (
            #[trigger] s.drop_last()[l]).id);
        lemma_obs_map_len(s.drop_last());
        lemma_obs_map_domain(s.drop_last(), s.last().id);
        assert forall|i: int| 0 <= i < s.len() - 1 implies (#[trigger] s.drop_last()[i]).id
            != s.last().id by {
            assert(s.drop_last()[i] == s[i]);
            assert(s[s.len() - 1] == s.last());
        }
        assert(!obs_map_of(s.drop_last()).dom().contains(s.last().id));
    }
}

/// Searches `v` for an entry carrying `id`; the answer agrees with membership
/// in the map of `v`.
pub fn find_timestamp(v: &Vec<Observation>, id: TxId) -> (r: Option<u128>)
    requires
        ids_unique(v@),
    ensures
        r is Some <==> obs_map_of(v@).dom().contains(id),
        r matches Some(t) ==> obs_map_of(v@)[id] == t,
{
    let mut i: usize = 0;
    while i < v.len()
        invariant
            i <= v@.len(),
            ids_unique(v@),
            forall|k: int| 0 <= k < i ==> (#[trigger] v@[k]).id != id,
        decreases v@.len() - i,
    {
        if v[i].id == id {
            proof {
                lemma_obs_map_index(v@, i as int);
            }
            return Some(v[i].timestamp_millis);
        }
        i = i + 1;
    }
    proof {
        lemma_obs_map_domain(v@, id);
    }
    None
}

/// The collector's position in its run: waiting for a subscription to open,
/// consuming the live stream, or finished.
#[derive(Clone, Copy, PartialEq, Eq, Structural, Debug)]
pub enum CollectorState {
    AwaitingSubscription,
    Streaming,
    Complete,
}

/// One endpoint's observation collector. It owns its observation map
/// exclusively; the driving loop feeds it subscription events and
/// notifications and reads back whether it has completed.
pub struct Collector {
    /// Where the collector stands in its state machine.
    pub state: CollectorState,
    /// The destination address a relevant transaction must carry.
    pub target: Address,
    /// How many observations complete the run.
    pub target_count: usize,
    /// The observations gathered so far, in arrival order.
    pub observations: Vec<Observation>,
}

impl Collector {
    /// The number of observations at which this collector completes: the
    /// configured count. Completion is checked only after an insertion, so a
    /// run always gathers at least one observation even under a target of
    /// zero.
    pub open spec fn completion_target(self) -> int {
        if self.target_count == 0 {
            1
        } else {
            self.target_count as int
        }
    }

    /// The gathered observations as a map from identifier to first-seen
    /// timestamp.
    pub open spec fn obs_map(self) -> Map<TxId, u128> {
        obs_map_of(self.observations@)
    }

    /// The collector's invariant: identifiers are unique, the map never grows
    /// past the completion target, and the collector stands in `Complete`
    /// exactly when the target is reached.
    pub open spec fn wf(self) -> bool {
        &&& ids_unique(self.observations@)
        &&& self.observations@.len() <= self.completion_target()
        &&& (self.state is Complete <==> self.observations@.len() == self.completion_target())
    }

    /// A fresh collector for one endpoint: no observations yet, waiting for
    /// its first subscription to open.
    pub fn new(target: Address, target_count: usize) -> (c: Collector)
        ensures
            c.wf(),
            c.state is AwaitingSubscription,
            c.target == target,
            c.target_count == target_count,
            c.observations@ == Seq::<Observation>::empty(),
    {
        let c = Collector { state: CollectorState::AwaitingSubscription, target, target_count,
            observations: Vec::new() };
        proof {
            assert(c.observations@ =~= Seq::<Observation>::empty());
        }
        c
    }

    /// A subscription opened: move to `Streaming`. The map is untouched, so a
    /// re-subscription after a dropped stream resumes with what was already
    /// gathered.
    pub fn on_subscribed(&mut self)
        requires
            old(self).wf(),
            old(self).state is AwaitingSubscription,
        ensures
            final(self).wf(),
            final(self).state is Streaming,
            final(self).target == old(self).target,
            final(self).target_count == old(self).target_count,
            final(self).observations == old(self).observations,
    {
        self.state = CollectorState::Streaming;
    }

    /// The live stream ended before completion: fall back to waiting for a
    /// fresh subscription, keeping every observation already gathered.
    pub fn on_stream_ended(&mut self)
        requires
            old(self).wf(),
            old(self).state is Streaming,
        ensures
            final(self).wf(),
            final(self).state is AwaitingSubscription,
            final(self).target == old(self).target,
            final(self).target_count == old(self).target_count,
            final(self).observations == old(self).observations,
    {
        self.state = CollectorState::AwaitingSubscription;
    }

    /// Evaluates one incoming pending-transaction notification against the
    /// target address, recording the first sighting of a relevant transaction
    /// at the given local timestamp.
    ///
    /// A notification is recorded exactly when it is addressed to the target
    /// and its identifier is new; a duplicate identifier never overwrites the
    /// timestamp already held. The collector moves to `Complete` exactly when
    /// the recording brings the map to the completion target.
    pub fn observe(&mut self, id: TxId, to: Option<Address>, timestamp_millis: u128) -> (recorded:
        bool)
        requires
            old(self).wf(),
            old(self).state is Streaming,
        ensures
            final(self).wf(),
            final(self).target == old(self).target,
            final(self).target_count == old(self).target_count,
            recorded <==> (to == Some(old(self).target)
                && !old(self).obs_map().dom().contains(id)),
            recorded ==> final(self).observations@ == old(self).observations@.push(
                (Observation { id, timestamp_millis }),
            ),
            recorded ==> final(self).obs_map() == old(self).obs_map().insert(id, timestamp_millis),
            !recorded ==> *final(self) == *old(self),
            old(self).obs_map().dom().contains(id)
                ==> final(self).obs_map() == old(self).obs_map(),
            final(self).state is Complete
                <==> final(self).observations@.len() == final(self).completion_target(),
            !(final(self).state is Complete) ==> final(self).state is Streaming,
    {
        let relevant = match to {
            Some(a) => a == self.target,
            None => false,
        };
        if !relevant {
            return false;
        }
        proof {
            lemma_obs_map_domain(self.observations@, id);
        }
        match find_timestamp(&self.observations, id) {
            Some(_) => false,
            None => {
                let ghost prior = self.observations@;
                self.observations.push(Observation { id, timestamp_millis });
                proof {
                    assert(self.observations@.drop_last() =~= prior);
                    assert forall|i: int, j: int| 0 <= i < j < self.observations@.len() implies (
                    #[trigger] self.observations@[i]).id != (
                    #[trigger] self.observations@[j]).id by {
                        if j < self.observations@.len() - 1 {
                            assert(self.observations@[i] == prior[i]);
                            assert(self.observations@[j] == prior[j]);
                        } else {
                            assert(self.observations@[j].id == id);
                            assert(self.observations@[i] == prior[i]);
                            lemma_obs_map_domain(prior, id);
                        }
                    }
                }
                if self.observations.len() >= self.target_count {
                    self.state = CollectorState::Complete;
                }
                true
            },
        }
    }

    /// Whether the collector has reached its completion target.
    pub fn is_complete(&self) -> (b: bool)
        ensures
            b == (self.state is Complete),
    {
        match self.state {
            CollectorState::Complete => true,
            _ => false,
        }
    }

    /// How many observations have been gathered so far.
    pub fn observation_count(&self) -> (n: usize)
        ensures
            n == self.observations@.len(),
    {
        self.observations.len()
    }

    /// A well-formed collector stands in `Complete` exactly when its
    /// observation map holds the completion target's worth of entries: never
    /// before, and the exact boundary is never skipped, since every recording
    /// grows the map by one.
    pub proof fn lemma_complete_iff_map_full(self)
        requires
            self.wf(),
        ensures
            self.obs_map().dom().finite(),
            self.obs_map().dom().len() == self.observations@.len(),
            self.state is Complete <==> self.obs_map().dom().len() == self.completion_target(),
    {
        lemma_obs_map_len(self.observations@);
    }

    /// Hands the finished observation map to the orchestrator once the
    /// collector has completed.
    pub fn into_observations(self) -> (v: Vec<Observation>)
        requires
            self.wf(),
            self.state is Complete,
        ensures
            v@ == self.observations@,
            ids_unique(v@),
            v@.len() == self.completion_target(),
    {
        self.observations
    }
}

} // verus!
