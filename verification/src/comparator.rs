//! The race comparator: given the two endpoints' completed observation maps,
//! decide per shared transaction which endpoint saw it first and by how much,
//! and aggregate a win count per endpoint.

use vstd::prelude::*;
use crate::collector::{ids_unique, obs_map_of, Observation};
use crate::collector::{lemma_obs_map_domain, lemma_obs_map_index, find_timestamp};
use crate::ids::TxId;

verus! {

/// The two endpoints whose observations are compared. Endpoint A is the first
/// argument of every comparison, endpoint B the second.
#[derive(Clone, Copy, PartialEq, Eq, Structural, Debug)]
pub enum Winner {
    EndpointA,
    EndpointB,
}

/// The outcome of racing one shared transaction: the strictly earlier
/// timestamp wins by the absolute difference; equal timestamps are a tie and
/// award the win to neither endpoint.
#[derive(Clone, Copy, PartialEq, Eq, Structural, Debug)]
pub enum RaceOutcome {
    AWins { advantage_millis: u128 },
    BWins { advantage_millis: u128 },
    Tie,
}

/// Decides one shared transaction's race from the two first-seen timestamps.
///
/// The strictly smaller timestamp wins, and the reported advantage is the
/// difference between the two; equal timestamps attribute a win to neither
/// endpoint.
pub fn race_outcome(t_a: u128, t_b: u128) -> (r: RaceOutcome)
    ensures
        t_a < t_b ==> r == (RaceOutcome::AWins { advantage_millis: (t_b - t_a) as u128 }),
        t_b < t_a ==> r == (RaceOutcome::BWins { advantage_millis: (t_a - t_b) as u128 }),
        t_a == t_b ==> r == RaceOutcome::Tie,
{
    if t_a < t_b {
        RaceOutcome::AWins { advantage_millis: t_b - t_a }
    } else if t_b < t_a {
        RaceOutcome::BWins { advantage_millis: t_a - t_b }
    } else {
        RaceOutcome::Tie
    }
}

/// One emitted comparison: a transaction seen by both endpoints at strictly
/// different times, the endpoint that saw it first, and its advantage.
#[derive(Clone, Copy, PartialEq, Eq, Structural, Debug)]
pub struct TxComparison {
    pub id: TxId,
    pub winner: Winner,
    pub advantage_millis: u128,
}

/// The comparison entry for one of endpoint A's observations, given endpoint
/// B's timestamp for the same transaction.
pub open spec fn comparison_of(o: Observation, t_b: u128) -> TxComparison {
    if o.timestamp_millis < t_b {
        TxComparison {
            id: o.id,
            winner: Winner::EndpointA,
            advantage_millis: (t_b - o.timestamp_millis) as u128,
        }
    } else {
        TxComparison {
            id: o.id,
            winner: Winner::EndpointB,
            advantage_millis: (o.timestamp_millis - t_b) as u128,
        }
    }
}

/// Whether endpoint A's observation `o` yields a comparison entry against
/// map `mb`: the transaction was seen by B too, at a strictly different time.
pub open spec fn yields_comparison(o: Observation, mb: Map<TxId, u128>) -> bool {
    mb.dom().contains(o.id) && mb[o.id] != o.timestamp_millis
}

/// The comparison entries for endpoint A's observations `sa` against endpoint
/// B's map `mb`, in A's arrival order: one entry per shared transaction with
/// strictly different timestamps, ties omitted.
pub open spec fn spec_comparisons(sa: Seq<Observation>, mb: Map<TxId, u128>) -> Seq<TxComparison>
    decreases sa.len(),
{
    if sa.len() == 0 {
        Seq::empty()
    } else {
        let prefix = spec_comparisons(sa.drop_last(), mb);
        if yields_comparison(sa.last(), mb) {
            prefix.push(comparison_of(sa.last(), mb[sa.last().id]))
        } else {
            prefix
        }
    }
}

/// How many entries of `s` name `w` as the winner.
pub open spec fn count_wins(s: Seq<TxComparison>, w: Winner) -> int
    decreases s.len(),
{
    if s.len() == 0 {
        0
    } else {
        count_wins(s.drop_last(), w) + if s.last().winner == w {
            1int
        } else {
            0int
        }
    }
}

/// The aggregate of one run: every emitted comparison, and the win count of
/// each endpoint.
pub struct RaceReport {
    pub comparisons: Vec<TxComparison>,
    pub wins_a: usize,
    pub wins_b: usize,
}

/// Every comparison entry names a transaction present in both maps with
/// strictly different timestamps, gives the win to the endpoint with the
/// strictly earlier timestamp, and reports the timestamp difference.
pub proof fn lemma_comparisons_sound(
    sa: Seq<Observation>,
    mb: Map<TxId, u128>,
    k: int,
)
    requires
        ids_unique(sa),
        0 <= k < spec_comparisons(sa, mb).len(),
    ensures
        ({
            let ma = obs_map_of(sa);
            let c = spec_comparisons(sa, mb)[k];
            &&& ma.dom().contains(c.id)
            &&& mb.dom().contains(c.id)
            &&& ma[c.id] != mb[c.id]
            &&& (c.winner is EndpointA <==> ma[c.id] < mb[c.id])
            &&& c.advantage_millis == if ma[c.id] < mb[c.id] {
                mb[c.id] - ma[c.id]
            } else {
                ma[c.id] - mb[c.id]
            }
        }),
    decreases sa.len(),
{
    let ma = obs_map_of(sa);
    let prefix = spec_comparisons(sa.drop_last(), mb);
    assert(forall|i: int, j: int|
        0 <= i < j < sa.len() - 1 ==> (#[trigger] sa.drop_last()[i]).id != (
        #[trigger] sa.drop_last()[j]).id);
    if k < prefix.len() {
        lemma_comparisons_sound(sa.drop_last(), mb, k);
        let c = prefix[k];
        lemma_obs_map_domain(sa.drop_last(), c.id);
        let i = choose|i: int| 0 <= i < sa.len() - 1 && (#[trigger] sa.drop_last()[i]).id == c.id;
        assert(sa[i] == sa.drop_last()[i]);
        lemma_obs_map_index(sa.drop_last(), i);
        lemma_obs_map_index(sa, i);
    } else {
        assert(yields_comparison(sa.last(), mb));
        lemma_obs_map_index(sa, sa.len() - 1);
    }
}

/// Every transaction present in both maps with strictly different timestamps
/// appears among the comparison entries: nothing shared is dropped.
pub proof fn lemma_comparisons_complete(sa: Seq<Observation>, mb: Map<TxId, u128>, i: int)
    requires
        0 <= i < sa.len(),
        yields_comparison(sa[i], mb),
    ensures
        exists|k: int|
            0 <= k < spec_comparisons(sa, mb).len() && (#[trigger] spec_comparisons(sa, mb)[k]).id
                == sa[i].id,
    decreases sa.len(),
{
    let whole = spec_comparisons(sa, mb);
    let prefix = spec_comparisons(sa.drop_last(), mb);
    if i == sa.len() - 1 {
        assert(whole[whole.len() - 1].id == sa[i].id);
    } else {
        assert(sa.drop_last()[i] == sa[i]);
        lemma_comparisons_complete(sa.drop_last(), mb, i);
        let k = choose|k: int| 0 <= k < prefix.len() && (#[trigger] prefix[k]).id
            == sa[i].id;
        assert(whole[k].id == sa[i].id);
    }
}

/// A transaction seen by only one endpoint yields no comparison entry: the
/// emitted identifiers come from the intersection of the two maps alone.
pub proof fn lemma_only_shared_compared(sa: Seq<Observation>, mb: Map<TxId, u128>, id: TxId)
    requires
        ids_unique(sa),
        !obs_map_of(sa).dom().contains(id) || !mb.dom().contains(id),
    ensures
        forall|k: int|
            0 <= k < spec_comparisons(sa, mb).len() ==> (#[trigger] spec_comparisons(sa, mb)[k]).id
                != id,
{
    assert forall|k: int| 0 <= k < spec_comparisons(sa, mb).len() implies (
    #[trigger] spec_comparisons(sa, mb)[k]).id != id by {
        lemma_comparisons_sound(sa, mb, k);
    }
}

/// Compares the two endpoints' completed observation maps.
///
/// The report holds one entry per transaction present in both maps whose two
/// first-seen timestamps differ, in endpoint A's arrival order; each entry
/// gives the win to the endpoint that saw the transaction strictly earlier,
/// with the timestamp difference as its advantage. The win counters count the
/// emitted entries per endpoint; ties are counted for neither.
pub fn compare(a: &Vec<Observation>, b: &Vec<Observation>) -> (r: RaceReport)
    requires
        ids_unique(a@),
        ids_unique(b@),
    ensures
        r.comparisons@ == spec_comparisons(a@, obs_map_of(b@)),
        r.wins_a == count_wins(spec_comparisons(a@, obs_map_of(b@)), Winner::EndpointA),
        r.wins_b == count_wins(spec_comparisons(a@, obs_map_of(b@)), Winner::EndpointB),
        forall|k: int|
            0 <= k < r.comparisons@.len() ==> obs_map_of(a@).dom().contains(
                (#[trigger] r.comparisons@[k]).id,
            ) && obs_map_of(b@).dom().contains(r.comparisons@[k].id),
{
    let ghost mb = obs_map_of(b@);
    let mut comparisons: Vec<TxComparison> = Vec::new();
    let mut wins_a: usize = 0;
    let mut wins_b: usize = 0;
    let mut i: usize = 0;
    while i < a.len()
        invariant
            i <= a@.len(),
            ids_unique(a@),
            ids_unique(b@),
            mb == obs_map_of(b@),
            comparisons@ == spec_comparisons(a@.take(i as int), mb),
            wins_a == count_wins(comparisons@, Winner::EndpointA),
            wins_b == count_wins(comparisons@, Winner::EndpointB),
            wins_a + wins_b <= i,
        decreases a@.len() - i,
    {
        let ghost before = a@.take(i as int);
        let ghost after = a@.take(i + 1);
        proof {
            assert(after.drop_last() =~= before);
            assert(after.last() == a@[i as int]);
        }
        let o = a[i];
        match find_timestamp(b, o.id) {
            Some(t_b) => {
                match race_outcome(o.timestamp_millis, t_b) {
                    RaceOutcome::AWins { advantage_millis } => {
                        let entry = TxComparison { id: o.id, winner: Winner::EndpointA,
                            advantage_millis };
                        comparisons.push(entry);
                        proof {
                            assert(comparisons@.drop_last() =~= spec_comparisons(before, mb));
                            assert(entry == comparison_of(a@[i as int], mb[a@[i as int].id]));
                        }
                        wins_a = wins_a + 1;
                    },
                    RaceOutcome::BWins { advantage_millis } => {
                        let entry = TxComparison { id: o.id, winner: Winner::EndpointB,
                            advantage_millis };
                        comparisons.push(entry);
                        proof {
                            assert(comparisons@.drop_last() =~= spec_comparisons(before, mb));
                            assert(entry == comparison_of(a@[i as int], mb[a@[i as int].id]));
                        }
                        wins_b = wins_b + 1;
                    },
                    RaceOutcome::Tie => {
                        proof {
                            assert(!yields_comparison(a@[i as int], mb));
                        }
                    },
                }
            },
            None => {
                proof {
                    assert(!yields_comparison(a@[i as int], mb));
                }
            },
        }
        i = i + 1;
    }
    proof {
        assert(a@.take(i as int) =~= a@);
        assert forall|k: int| 0 <= k < comparisons@.len() implies obs_map_of(a@).dom().contains(
            (#[trigger] comparisons@[k]).id,
        ) && mb.dom().contains(comparisons@[k].id) by {
            lemma_comparisons_sound(a@, mb, k);
        }
    }
    RaceReport { comparisons, wins_a, wins_b }
}

} // verus!
