//! Votes collected per log position, and votes that wait their turn to be
//! verified.
use crate::pbft::{Commit, Prepare, Verifiable, H256};
use std::collections::BTreeMap;
use vstd::prelude::*;
use vstd::std_specs::iter::IteratorSpec;

verus! {

/// A message of the prepare or the commit phase.
pub trait Vote: Copy {
    /// The digest that the vote is for.
    spec fn vote_digest(self) -> H256;

    fn digest(&self) -> (r: H256)
        ensures
            r == self.vote_digest(),
    ;
}

impl Vote for Prepare {
    open spec fn vote_digest(self) -> H256 {
        self.digest
    }

    fn digest(&self) -> (r: H256) {
        self.digest
    }
}

impl Vote for Commit {
    open spec fn vote_digest(self) -> H256 {
        self.digest
    }

    fn digest(&self) -> (r: H256) {
        self.digest
    }
}

/// The votes of `votes` from replicas below `bound`, in the order of the
/// replicas.
pub open spec fn votes_below<M>(votes: Map<u8, Verifiable<M>>, bound: int) -> Seq<
    (u8, Verifiable<M>),
>
    decreases bound,
{
    if bound <= 0 {
        Seq::empty()
    } else {
        let id = (bound - 1) as u8;
        if votes.contains_key(id) {
            votes_below(votes, bound - 1).push((id, votes[id]))
        } else {
            votes_below(votes, bound - 1)
        }
    }
}

/// All the votes of `votes`, in the order of the replicas.
pub open spec fn votes_in_order<M>(votes: Map<u8, Verifiable<M>>) -> Seq<(u8, Verifiable<M>)> {
    votes_below(votes, 256)
}

/// The votes of `votes` that are for `digest`.
pub open spec fn votes_for<M: Vote>(votes: Map<u8, Verifiable<M>>, digest: H256) -> Map<
    u8,
    Verifiable<M>,
> {
    Map::new(
        |id: u8| votes.contains_key(id) && votes[id].inner.vote_digest() == digest,
        |id: u8| votes[id],
    )
}

/// The votes that `quorums` holds for `op_num`; none where it has no entry.
pub open spec fn votes_at<M>(quorums: Map<u32, Map<u8, Verifiable<M>>>, op_num: u32) -> Map<
    u8,
    Verifiable<M>,
> {
    if quorums.contains_key(op_num) {
        quorums[op_num]
    } else {
        Map::empty()
    }
}

/// The votes below `bound` are as many as the voters below `bound`.
pub proof fn lemma_votes_below_len<M>(votes: Map<u8, Verifiable<M>>, bound: int)
    requires
        0 <= bound <= 256,
        votes.dom().finite(),
    ensures
        votes_below(votes, bound).len() == votes.dom().filter(|id: u8| id < bound).len(),
    decreases bound,
{
    let below = votes.dom().filter(|id: u8| id < bound);
    if bound == 0 {
        assert(below =~= Set::<u8>::empty());
    } else {
        lemma_votes_below_len(votes, bound - 1);
        let before = votes.dom().filter(|id: u8| id < bound - 1);
        let id = (bound - 1) as u8;
        if votes.contains_key(id) {
            assert(below =~= before.insert(id));
        } else {
            assert(below =~= before);
        }
    }
}

/// Whether `votes` goes up by voter, so that no replica has two votes in it.
pub open spec fn in_replica_order<M>(votes: Seq<(u8, Verifiable<M>)>) -> bool {
    forall|i: int, j: int| 0 <= i < j < votes.len() ==> votes[i].0 < votes[j].0
}

/// The votes below `bound` go up by voter, and every voter is below `bound`.
pub proof fn lemma_votes_below_in_order<M>(votes: Map<u8, Verifiable<M>>, bound: int)
    requires
        bound <= 256,
    ensures
        in_replica_order(votes_below(votes, bound)),
        forall|i: int|
            0 <= i < votes_below(votes, bound).len() ==> (#[trigger] votes_below(
                votes,
                bound,
            )[i]).0 < bound,
    decreases bound,
{
    if bound > 0 {
        lemma_votes_below_in_order(votes, bound - 1);
    }
}

/// Whether every vote of `votes` is for `digest`.
pub open spec fn on_digest<M: Vote>(votes: Seq<(u8, Verifiable<M>)>, digest: H256) -> bool {
    forall|i: int| 0 <= i < votes.len() ==> (#[trigger] votes[i]).1.inner.vote_digest() == digest
}

/// Whether every vote of `taken` is the vote of its voter in `votes`.
pub open spec fn taken_from<M>(
    taken: Seq<(u8, Verifiable<M>)>,
    votes: Map<u8, Verifiable<M>>,
) -> bool {
    forall|i: int|
        0 <= i < taken.len() ==> votes.contains_key((#[trigger] taken[i]).0) && votes[taken[i].0]
            == taken[i].1
}

/// Each of the votes below `bound` is a vote of `votes`, under its voter.
pub proof fn lemma_votes_below_are_votes<M>(votes: Map<u8, Verifiable<M>>, bound: int, i: int)
    requires
        0 <= i < votes_below(votes, bound).len(),
    ensures
        votes.contains_key(votes_below(votes, bound)[i].0),
        votes_below(votes, bound)[i].1 == votes[votes_below(votes, bound)[i].0],
    decreases bound,
{
    if bound > 0 {
        let before = votes_below(votes, bound - 1);
        if i < before.len() {
            lemma_votes_below_are_votes(votes, bound - 1, i);
        }
    }
}

/// Taking the votes in order neither loses nor adds one.
pub proof fn lemma_votes_in_order_len<M>(votes: Map<u8, Verifiable<M>>)
    requires
        votes.dom().finite(),
    ensures
        votes_in_order(votes).len() == votes.len(),
{
    lemma_votes_below_len(votes, 256);
    assert(votes.dom().filter(|id: u8| id < 256) =~= votes.dom());
}

/// The votes received so far, by log position and by replica. A replica has
/// at most one vote per position: a later one replaces the earlier.
pub struct Quorums<M>(BTreeMap<u32, BTreeMap<u8, Verifiable<M>>>);

impl<M> View for Quorums<M> {
    type V = Map<u32, Map<u8, Verifiable<M>>>;

    closed spec fn view(&self) -> Map<u32, Map<u8, Verifiable<M>>> {
        self.0@.map_values(|votes: BTreeMap<u8, Verifiable<M>>| votes@)
    }
}

impl<M: Vote> Quorums<M> {
    /// No votes at all.
    pub fn new() -> (r: Self)
        ensures
            r@ == Map::<u32, Map<u8, Verifiable<M>>>::empty(),
    {
        let r = Quorums(BTreeMap::new());
        assert(r@ =~= Map::<u32, Map<u8, Verifiable<M>>>::empty());
        r
    }

    /// Records the vote of `replica_id` for `op_num`, and returns how many
    /// replicas have voted for that position.
    pub fn insert(&mut self, op_num: u32, replica_id: u8, vote: Verifiable<M>) -> (count: usize)
        ensures
            final(self)@ == old(self)@.insert(
                op_num,
                votes_at(old(self)@, op_num).insert(replica_id, vote),
            ),
            count == votes_at(final(self)@, op_num).len(),
            1 <= count <= 256,
    {
        let mut votes = match self.0.remove(&op_num) {
            Some(votes) => votes,
            None => BTreeMap::new(),
        };
        votes.insert(replica_id, vote);
        let count = votes.len();
        proof {
            lemma_at_most_256(votes@);
            assert(votes@.contains_key(replica_id));
        }
        self.0.insert(op_num, votes);
        assert(final(self)@ =~= old(self)@.insert(
            op_num,
            votes_at(old(self)@, op_num).insert(replica_id, vote),
        ));
        count
    }

    /// Takes out the votes for `op_num`, in the order of the replicas.
    pub fn take(&mut self, op_num: u32) -> (votes: Vec<(u8, Verifiable<M>)>)
        ensures
            final(self)@ == old(self)@.remove(op_num),
            votes@ == votes_in_order(votes_at(old(self)@, op_num)),
            votes@.len() == votes_at(old(self)@, op_num).len(),
            in_replica_order(votes@),
            taken_from(votes@, votes_at(old(self)@, op_num)),
    {
        let mut taken: Vec<(u8, Verifiable<M>)> = Vec::new();
        match self.0.remove(&op_num) {
            Some(votes) => {
                let mut bound: usize = 0;
                while bound < 256
                    invariant
                        bound <= 256,
                        taken@ == votes_below(votes@, bound as int),
                    decreases 256 - bound,
                {
                    let id = bound as u8;
                    match votes.get(&id) {
                        Some(vote) => {
                            taken.push((id, *vote));
                        },
                        None => {},
                    }
                    bound = bound + 1;
                }
                proof {
                    lemma_votes_in_order_len(votes@);
                }
            },
            None => {
                proof {
                    lemma_votes_in_order_len(Map::<u8, Verifiable<M>>::empty());
                    assert(votes_in_order(Map::<u8, Verifiable<M>>::empty()) =~= Seq::empty());
                }
            },
        }
        proof {
            let votes = votes_at(old(self)@, op_num);
            lemma_votes_below_in_order(votes, 256);
            assert forall|i: int| 0 <= i < taken@.len() implies votes.contains_key(
                (#[trigger] taken@[i]).0,
            ) && votes[taken@[i].0] == taken@[i].1 by {
                lemma_votes_below_are_votes(votes, 256, i);
            }
        }
        assert(final(self)@ =~= old(self)@.remove(op_num));
        taken
    }

    /// Drops the votes for `op_num` that are not for `digest`.
    pub fn retain(&mut self, op_num: u32, digest: &H256)
        ensures
            final(self)@ == if old(self)@.contains_key(op_num) {
                old(self)@.insert(op_num, votes_for(old(self)@[op_num], *digest))
            } else {
                old(self)@
            },
    {
        match self.0.remove(&op_num) {
            Some(votes) => {
                let mut kept: BTreeMap<u8, Verifiable<M>> = BTreeMap::new();
                let ghost s = votes.iter().remaining();
                for entry in it: votes.iter()
                    invariant
                        it.seq() == s,
                        s == votes.iter().remaining(),
                        forall|id: u8| #[trigger]
                            kept@.contains_key(id) ==> votes_for(votes@, *digest).contains_key(id)
                                && kept@[id] == votes@[id],
                        forall|i: int|
                            0 <= i < it.index() && (*(#[trigger] s[i]).1).inner.vote_digest()
                                == *digest ==> kept@.contains_key(*s[i].0),
                {
                    let (id, vote) = entry;
                    if vote.inner.digest().same(digest) {
                        kept.insert(*id, *vote);
                    }
                }
                proof {
                    assert forall|id: u8|
                        votes_for(votes@, *digest).contains_key(id) implies kept@.contains_key(
                        id,
                    ) by {
                        assert(s.contains((&id, &votes@[id])));
                    }
                    assert(kept@ =~= votes_for(votes@, *digest));
                }
                self.0.insert(op_num, kept);
                assert(final(self)@ =~= old(self)@.insert(
                    op_num,
                    votes_for(old(self)@[op_num], *digest),
                ));
            },
            None => {
                assert(final(self)@ =~= old(self)@);
            },
        }
    }
}

/// Votes that wait to be verified, by log position. A position is present
/// while one of its votes is being verified; what it holds are the votes that
/// arrived meanwhile.
pub struct Pending<M>(BTreeMap<u32, Vec<Verifiable<M>>>);

impl<M> View for Pending<M> {
    type V = Map<u32, Seq<Verifiable<M>>>;

    closed spec fn view(&self) -> Map<u32, Seq<Verifiable<M>>> {
        self.0@.map_values(|votes: Vec<Verifiable<M>>| votes@)
    }
}

impl<M: Copy> Pending<M> {
    /// No verification under way.
    pub fn new() -> (r: Self)
        ensures
            r@ == Map::<u32, Seq<Verifiable<M>>>::empty(),
    {
        let r = Pending(BTreeMap::new());
        assert(r@ =~= Map::<u32, Seq<Verifiable<M>>>::empty());
        r
    }

    /// Queues `vote` behind the verification under way for `op_num`, and
    /// says whether there was one.
    pub fn defer(&mut self, op_num: u32, vote: Verifiable<M>) -> (deferred: bool)
        ensures
            deferred == old(self)@.contains_key(op_num),
            final(self)@ == if deferred {
                old(self)@.insert(op_num, old(self)@[op_num].push(vote))
            } else {
                old(self)@
            },
    {
        match self.0.remove(&op_num) {
            Some(mut votes) => {
                votes.push(vote);
                self.0.insert(op_num, votes);
                assert(final(self)@ =~= old(self)@.insert(op_num, old(self)@[op_num].push(vote)));
                true
            },
            None => {
                assert(final(self)@ =~= old(self)@);
                false
            },
        }
    }

    /// Notes that a vote for `op_num` is being verified.
    pub fn start(&mut self, op_num: u32)
        ensures
            final(self)@ == old(self)@.insert(op_num, Seq::empty()),
    {
        self.0.insert(op_num, Vec::new());
        assert(final(self)@ =~= old(self)@.insert(op_num, Seq::empty()));
    }

    /// The vote for `op_num` to verify next: the one that arrived last.
    /// Where none waits, the position is no longer under verification.
    pub fn next(&mut self, op_num: u32) -> (vote: Option<Verifiable<M>>)
        ensures
            vote == next_vote(old(self)@, op_num),
            final(self)@ == after_next(old(self)@, op_num),
    {
        match self.0.remove(&op_num) {
            Some(mut votes) => {
                match votes.pop() {
                    Some(vote) => {
                        self.0.insert(op_num, votes);
                        assert(final(self)@ =~= after_next(old(self)@, op_num));
                        Some(vote)
                    },
                    None => {
                        assert(final(self)@ =~= after_next(old(self)@, op_num));
                        None
                    },
                }
            },
            None => {
                assert(final(self)@ =~= after_next(old(self)@, op_num));
                None
            },
        }
    }
}

/// The vote that `Pending::next` hands out.
pub open spec fn next_vote<M>(pending: Map<u32, Seq<Verifiable<M>>>, op_num: u32) -> Option<
    Verifiable<M>,
> {
    if pending.contains_key(op_num) && pending[op_num].len() > 0 {
        Some(pending[op_num].last())
    } else {
        None
    }
}

/// What `Pending::next` leaves behind.
pub open spec fn after_next<M>(pending: Map<u32, Seq<Verifiable<M>>>, op_num: u32) -> Map<
    u32,
    Seq<Verifiable<M>>,
> {
    if pending.contains_key(op_num) && pending[op_num].len() > 0 {
        pending.insert(op_num, pending[op_num].drop_last())
    } else {
        pending.remove(op_num)
    }
}

/// The replicas below `n`.
pub open spec fn replicas(n: nat) -> Set<u8> {
    Set::new(|id: u8| id < n)
}

/// There are as many replicas below `n` as `n` says, up to the 256 that can
/// be numbered.
proof fn lemma_replicas_len(n: nat)
    requires
        n <= 256,
    ensures
        replicas(n).finite(),
        replicas(n).len() == n,
    decreases n,
{
    if n == 0 {
        assert(replicas(n) =~= Set::<u8>::empty());
    } else {
        lemma_replicas_len((n - 1) as nat);
        assert(replicas(n) =~= replicas((n - 1) as nat).insert((n - 1) as u8));
    }
}

/// Two quorums have a correct replica in common: among `n` replicas, of
/// which `f` may be faulty and `n` is at least `3 * f + 1`, any two sets of
/// at least `n - f` replicas share more than `f` of them. This is what makes
/// two correct replicas agree on what a log position holds, as long as no
/// correct replica votes for two digests at one position.
pub proof fn lemma_quorums_intersect(n: nat, f: nat, first: Set<u8>, second: Set<u8>)
    requires
        n <= 256,
        n >= 3 * f + 1,
        first.subset_of(replicas(n)),
        second.subset_of(replicas(n)),
        first.len() >= n - f,
        second.len() >= n - f,
    ensures
        first.intersect(second).len() >= f + 1,
{
    lemma_replicas_len(n);
    vstd::set_lib::lemma_len_subset(first, replicas(n));
    vstd::set_lib::lemma_len_subset(second, replicas(n));
    assert(first.union(second).subset_of(replicas(n)));
    vstd::set_lib::lemma_len_subset(first.union(second), replicas(n));
    vstd::set_lib::lemma_set_intersect_union_lens(first, second);
}

/// The replicas whose votes `votes` holds.
pub open spec fn voters<M>(votes: Seq<(u8, Verifiable<M>)>) -> Set<u8> {
    votes.map_values(|vote: (u8, Verifiable<M>)| vote.0).to_set()
}

/// Votes that go up by voter are of as many replicas as there are votes.
pub proof fn lemma_voters_len<M>(votes: Seq<(u8, Verifiable<M>)>)
    requires
        in_replica_order(votes),
    ensures
        voters(votes).finite(),
        voters(votes).len() == votes.len(),
{
    let ids = votes.map_values(|vote: (u8, Verifiable<M>)| vote.0);
    assert(ids.no_duplicates()) by {
        assert forall|i: int, j: int|
            0 <= i < ids.len() && 0 <= j < ids.len() && i != j implies ids[i] != ids[j] by {
            if i < j {
                assert(votes[i].0 < votes[j].0);
            } else {
                assert(votes[j].0 < votes[i].0);
            }
        }
    }
    vstd::seq_lib::seq_to_set_is_finite(ids);
    ids.unique_seq_to_set();
}

/// A map keyed by replica holds at most 256 entries.
proof fn lemma_at_most_256<T>(m: Map<u8, T>)
    requires
        m.dom().finite(),
    ensures
        m.len() <= 256,
{
    lemma_replicas_len(256);
    assert(m.dom().subset_of(replicas(256)));
    vstd::set_lib::lemma_len_subset(m.dom(), replicas(256));
}

} // verus!
