//! The reference version type: one counter per key.
use crate::cops::{
    in_order, lemma_ascending_in_order, DepOrd, Error, KeyId, Update, UpdateOk, Version,
};
use crate::lamport_mutex::{Clock, LamportClock};
use std::cmp::Ordering;
use std::collections::BTreeMap;
use vstd::prelude::*;
use vstd::std_specs::iter::IteratorSpec;

verus! {

/// The counter that `m` holds for `id`; a missing entry counts as zero.
pub open spec fn counter(m: Map<KeyId, u32>, id: KeyId) -> u32 {
    if m.contains_key(id) {
        m[id]
    } else {
        0
    }
}

/// Whether every counter of `a` is at least the counter of `b` for the same key.
pub open spec fn covers(a: Map<KeyId, u32>, b: Map<KeyId, u32>) -> bool {
    forall|id: KeyId| counter(a, id) >= #[trigger] counter(b, id)
}

/// The causal order of two versions: `a` is at or after `b` when it covers
/// `b`. Versions that cover each other are equal in this order even when one
/// of them spells out a zero counter that the other omits.
pub open spec fn causal_order(a: Map<KeyId, u32>, b: Map<KeyId, u32>) -> Option<Ordering> {
    if covers(a, b) {
        if covers(b, a) {
            Some(Ordering::Equal)
        } else {
            Some(Ordering::Greater)
        }
    } else if covers(b, a) {
        Some(Ordering::Less)
    } else {
        None
    }
}

/// How `a` and `b` compare on the single key `id`: by their counters for
/// it, where a missing entry counts as zero.
pub open spec fn dep_order(a: Map<KeyId, u32>, b: Map<KeyId, u32>, id: KeyId) -> Ordering {
    if counter(a, id) < counter(b, id) {
        Ordering::Less
    } else if counter(a, id) == counter(b, id) {
        Ordering::Equal
    } else {
        Ordering::Greater
    }
}

/// The least version that covers both `a` and `b`: the keys of either, each
/// with the larger of its counters.
pub open spec fn merged(a: Map<KeyId, u32>, b: Map<KeyId, u32>) -> Map<KeyId, u32> {
    Map::new(
        |id: KeyId| a.contains_key(id) || b.contains_key(id),
        |id: KeyId|
            if a.contains_key(id) && b.contains_key(id) {
                if a[id] >= b[id] {
                    a[id]
                } else {
                    b[id]
                }
            } else if a.contains_key(id) {
                a[id]
            } else {
                b[id]
            },
    )
}

/// `first` merged with each of `rest` in turn.
pub open spec fn merged_all(first: Map<KeyId, u32>, rest: Seq<Map<KeyId, u32>>) -> Map<KeyId, u32>
    decreases rest.len(),
{
    if rest.len() == 0 {
        first
    } else {
        merged(merged_all(first, rest.drop_last()), rest.last())
    }
}

/// `m` with the counter of `id` raised by one.
pub open spec fn raised(m: Map<KeyId, u32>, id: KeyId) -> Map<KeyId, u32>
    recommends
        counter(m, id) < u32::MAX,
{
    m.insert(id, (counter(m, id) + 1) as u32)
}

/// The views of a sequence of versions.
pub open spec fn views(versions: Seq<OrdinaryVersion>) -> Seq<Map<KeyId, u32>> {
    versions.map_values(|v: OrdinaryVersion| v@)
}

/// The version that follows `prev` on the key `id` once everything in `deps`
/// has been seen.
pub open spec fn updated(prev: Map<KeyId, u32>, deps: Seq<Map<KeyId, u32>>, id: KeyId) -> Map<
    KeyId,
    u32,
> {
    raised(merged_all(prev, deps), id)
}

/// A version with one counter per key.
#[derive(Debug, PartialEq, Eq, Hash)]
pub struct OrdinaryVersion(pub BTreeMap<KeyId, u32>);

impl View for OrdinaryVersion {
    type V = Map<KeyId, u32>;

    open spec fn view(&self) -> Map<KeyId, u32> {
        self.0@
    }
}

/// Whether `clock` covers `other`.
fn ge(clock: &OrdinaryVersion, other: &OrdinaryVersion) -> (r: bool)
    ensures
        r == covers(clock@, other@),
{
    let ghost s = other.0.iter().remaining();
    for entry in it: other.0.iter()
        invariant
            it.seq() == s,
            s == other.0.iter().remaining(),
            forall|i: int|
                0 <= i < it.index() ==> counter(clock@, *(#[trigger] s[i]).0) >= *s[i].1,
    {
        let (id, n) = entry;
        if *n != 0 {
            match clock.0.get(id) {
                None => {
                    proof {
                        assert(counter(other@, *id) == *n);
                    }
                    return false;
                },
                Some(m) => {
                    if *m < *n {
                        proof {
                            assert(counter(other@, *id) == *n);
                        }
                        return false;
                    }
                },
            }
        }
    }
    proof {
        assert forall|id: KeyId| counter(clock@, id) >= #[trigger] counter(other@, id) by {
            if other@.contains_key(id) {
                assert(s.contains((&id, &other@[id])));
            }
        }
    }
    true
}

impl OrdinaryVersion {
    /// The version without any counter.
    pub fn new() -> (r: Self)
        ensures
            r@ == Map::<KeyId, u32>::empty(),
    {
        OrdinaryVersion(BTreeMap::new())
    }

    /// Whether no counter has been raised yet.
    pub fn is_genesis(&self) -> (r: bool)
        ensures
            r == (forall|id: KeyId| #[trigger] counter(self@, id) == 0),
    {
        let ghost s = self.0.iter().remaining();
        for entry in it: self.0.iter()
            invariant
                it.seq() == s,
                s == self.0.iter().remaining(),
                forall|i: int| 0 <= i < it.index() ==> *(#[trigger] s[i]).1 == 0,
        {
            if *entry.1 != 0 {
                proof {
                    assert(counter(self@, *entry.0) != 0);
                }
                return false;
            }
        }
        proof {
            assert forall|id: KeyId| #[trigger] counter(self@, id) == 0 by {
                if self@.contains_key(id) {
                    assert(s.contains((&id, &self@[id])));
                }
            }
        }
        true
    }

    /// The least version that covers both `self` and `other`.
    pub fn merge(&self, other: &Self) -> (r: Self)
        ensures
            r@ == merged(self@, other@),
    {
        let mut result: BTreeMap<KeyId, u32> = BTreeMap::new();
        let ghost s = self.0.iter().remaining();
        for entry in it: self.0.iter()
            invariant
                it.seq() == s,
                s == self.0.iter().remaining(),
                forall|id: KeyId| #[trigger]
                    result@.contains_key(id) ==> self@.contains_key(id) && result@[id] == merged(
                        self@,
                        other@,
                    )[id],
                forall|i: int| 0 <= i < it.index() ==> result@.contains_key(*(#[trigger] s[i]).0),
        {
            let (id, n) = entry;
            let n: u32 = match other.0.get(id) {
                Some(m) => if *n >= *m {
                    *n
                } else {
                    *m
                },
                None => *n,
            };
            result.insert(*id, n);
        }
        let ghost t = other.0.iter().remaining();
        for entry in it: other.0.iter()
            invariant
                it.seq() == t,
                t == other.0.iter().remaining(),
                forall|id: KeyId| #[trigger]
                    result@.contains_key(id) ==> (self@.contains_key(id) || other@.contains_key(
                        id,
                    )) && result@[id] == merged(self@, other@)[id],
                forall|id: KeyId| self@.contains_key(id) ==> #[trigger] result@.contains_key(id),
                forall|i: int| 0 <= i < it.index() ==> result@.contains_key(*(#[trigger] t[i]).0),
        {
            let (id, n) = entry;
            if !self.0.contains_key(id) {
                result.insert(*id, *n);
            }
        }
        proof {
            assert forall|id: KeyId| self@.contains_key(id) implies result@.contains_key(id) by {
                assert(s.contains((&id, &self@[id])));
            }
            assert forall|id: KeyId| other@.contains_key(id) implies result@.contains_key(id) by {
                assert(t.contains((&id, &other@[id])));
            }
            assert(result@ =~= merged(self@, other@));
        }
        OrdinaryVersion(result)
    }

    /// `self` merged with each of `others` in turn.
    fn merge_all(&self, others: &Vec<OrdinaryVersion>) -> (r: Self)
        ensures
            r@ == merged_all(self@, views(others@)),
    {
        let mut result = self.clone();
        let ghost all = views(others@);
        assert(all.take(0) =~= Seq::<Map<KeyId, u32>>::empty());
        for i in 0..others.len()
            invariant
                all == views(others@),
                result@ == merged_all(self@, all.take(i as int)),
        {
            proof {
                assert(all.take(i + 1).drop_last() =~= all.take(i as int));
                assert(all.take(i + 1).last() == others@[i as int]@);
            }
            result = result.merge(&others[i]);
        }
        assert(all.take(others.len() as int) =~= all);
        result
    }

    /// The counter for `id`; zero where there is none.
    fn counter(&self, id: KeyId) -> (n: u32)
        ensures
            n == counter(self@, id),
    {
        match self.0.get(&id) {
            Some(n) => *n,
            None => 0,
        }
    }

    /// The version that follows `self` on the key `id` once everything in
    /// `others` has been seen: all of them merged, and the counter of `id`
    /// raised by one.
    pub fn update(&self, others: &Vec<OrdinaryVersion>, id: KeyId) -> (r: Self)
        requires
            counter(merged_all(self@, views(others@)), id) < u32::MAX,
        ensures
            r@ == updated(self@, views(others@), id),
    {
        let mut result = self.merge_all(others);
        let n = result.counter(id);
        result.0.insert(id, n + 1);
        result
    }

    /// The version that follows `self` on the key `id` once everything in
    /// `others` has been seen, unless the counter of `id` cannot be raised
    /// any more.
    pub fn checked_update(&self, others: &Vec<OrdinaryVersion>, id: KeyId) -> (r: Option<Self>)
        ensures
            match r {
                Some(version) => counter(merged_all(self@, views(others@)), id) < u32::MAX
                    && version@ == updated(self@, views(others@), id),
                None => counter(merged_all(self@, views(others@)), id) == u32::MAX,
            },
    {
        let mut result = self.merge_all(others);
        let n = result.counter(id);
        if n == u32::MAX {
            return None;
        }
        result.0.insert(id, n + 1);
        Some(result)
    }
}

impl Clone for OrdinaryVersion {
    fn clone(&self) -> (r: Self)
        ensures
            r@ == self@,
    {
        OrdinaryVersion(self.0.clone())
    }
}

impl Default for OrdinaryVersion {
    fn default() -> (r: Self)
        ensures
            r@ == Map::<KeyId, u32>::empty(),
    {
        OrdinaryVersion::new()
    }
}

impl PartialOrd for OrdinaryVersion {
    fn partial_cmp(&self, other: &Self) -> (r: Option<Ordering>) {
        if ge(self, other) {
            if ge(other, self) {
                Some(Ordering::Equal)
            } else {
                Some(Ordering::Greater)
            }
        } else if ge(other, self) {
            Some(Ordering::Less)
        } else {
            None
        }
    }
}

impl vstd::std_specs::cmp::PartialOrdSpecImpl for OrdinaryVersion {
    open spec fn obeys_partial_cmp_spec() -> bool {
        true
    }

    open spec fn partial_cmp_spec(&self, other: &Self) -> Option<Ordering> {
        causal_order(self@, other@)
    }
}

impl DepOrd for OrdinaryVersion {
    open spec fn dep_order(a: Map<KeyId, u32>, b: Map<KeyId, u32>, id: KeyId) -> Ordering {
        self::dep_order(a, b, id)
    }

    open spec fn dep_keys(a: Map<KeyId, u32>) -> Set<KeyId> {
        a.dom()
    }

    fn dep_cmp(&self, other: &Self, id: KeyId) -> (r: Ordering) {
        let n = self.counter(id);
        let m = other.counter(id);
        if n < m {
            Ordering::Less
        } else if n == m {
            Ordering::Equal
        } else {
            Ordering::Greater
        }
    }

    fn deps(&self) -> (r: Vec<KeyId>)
        ensures
            r@ == in_order(self@.dom()),
    {
        let mut keys: Vec<KeyId> = Vec::new();
        let ghost s = self.0.iter().remaining();
        let ghost ids = s.map_values(|kv: (&KeyId, &u32)| *kv.0);
        for entry in it: self.0.iter()
            invariant
                it.seq() == s,
                s == self.0.iter().remaining(),
                ids == s.map_values(|kv: (&KeyId, &u32)| *kv.0),
                keys@.len() == it.index(),
                forall|i: int| 0 <= i < it.index() ==> keys@[i] == #[trigger] ids[i],
        {
            keys.push(*entry.0);
        }
        proof {
            assert(keys@ =~= ids);
            crate::cops::lemma_increasing_is_ascending(ids);
            assert(ids.to_set() =~= self@.dom()) by {
                assert forall|k: KeyId| self@.dom().contains(k) implies ids.to_set().contains(
                    k,
                ) by {
                    assert(s.contains((&k, &self@[k])));
                    let i = choose|i: int| 0 <= i < s.len() && s[i] == (&k, &self@[k]);
                    assert(ids[i] == k);
                }
            }
            lemma_ascending_in_order(ids);
        }
        keys
    }
}

impl Version for OrdinaryVersion {
    open spec fn causal_order(a: Map<KeyId, u32>, b: Map<KeyId, u32>) -> Option<Ordering> {
        self::causal_order(a, b)
    }

    fn causal_cmp(&self, other: &Self) -> (r: Option<Ordering>) {
        self.partial_cmp(other)
    }

    fn duplicate(&self) -> (r: Self) {
        self.clone()
    }

    proof fn lemma_causal_order_transitive(
        a: Map<KeyId, u32>,
        b: Map<KeyId, u32>,
        c: Map<KeyId, u32>,
    ) {
        assert forall|id: KeyId| counter(a, id) >= #[trigger] counter(c, id) by {
            assert(counter(a, id) >= counter(b, id));
            assert(counter(b, id) >= counter(c, id));
        }
        if covers(c, a) {
            assert forall|id: KeyId| counter(c, id) >= #[trigger] counter(b, id) by {
                assert(counter(c, id) >= counter(a, id));
                assert(counter(a, id) >= counter(b, id));
            }
        }
    }
}

/// The counters of `m` under `keys`, added up.
pub open spec fn sum_of(keys: Seq<KeyId>, m: Map<KeyId, u32>) -> nat
    decreases keys.len(),
{
    if keys.len() == 0 {
        0
    } else {
        sum_of(keys.drop_last(), m) + m[keys.last()] as nat
    }
}

/// All the counters of `m`, added up.
pub open spec fn total(m: Map<KeyId, u32>) -> nat {
    sum_of(in_order(m.dom()), m)
}

/// The counters under the first keys add up to no more than those under
/// all of them.
proof fn lemma_sum_of_grows(keys: Seq<KeyId>, m: Map<KeyId, u32>, len: int)
    requires
        0 <= len <= keys.len(),
    ensures
        sum_of(keys.take(len), m) <= sum_of(keys, m),
    decreases keys.len() - len,
{
    if len < keys.len() {
        lemma_sum_of_grows(keys, m, len + 1);
        assert(keys.take(len + 1).drop_last() =~= keys.take(len));
    } else {
        assert(keys.take(len) =~= keys);
    }
}

impl Clock for OrdinaryVersion {
    open spec fn reduced(clock: Map<KeyId, u32>) -> LamportClock {
        total(clock) as LamportClock
    }

    open spec fn reducible(clock: Map<KeyId, u32>) -> bool {
        total(clock) <= LamportClock::MAX
    }

    fn reduce(&self) -> (r: LamportClock) {
        let mut sum: LamportClock = 0;
        let entries = self.0.iter();
        let ghost s = entries.remaining();
        let ghost keys = s.map_values(|kv: (&KeyId, &u32)| *kv.0);
        proof {
            crate::cops::lemma_increasing_is_ascending(keys);
            assert(keys.to_set() =~= self@.dom()) by {
                assert forall|k: KeyId| self@.dom().contains(k) implies keys.to_set().contains(
                    k,
                ) by {
                    assert(s.contains((&k, &self@[k])));
                    let i = choose|i: int| 0 <= i < s.len() && s[i] == (&k, &self@[k]);
                    assert(keys[i] == k);
                }
            }
            lemma_ascending_in_order(keys);
            assert(keys.take(0) =~= Seq::empty());
        }
        for entry in it: entries
            invariant
                it.seq() == s,
                s == self.0.iter().remaining(),
                keys == s.map_values(|kv: (&KeyId, &u32)| *kv.0),
                keys == in_order(self@.dom()),
                total(self@) <= LamportClock::MAX,
                sum == sum_of(keys.take(it.index()), self@),
        {
            proof {
                let i = it.index();
                assert(keys.take(i + 1).drop_last() =~= keys.take(i));
                assert(keys.take(i + 1).last() == *entry.0);
                assert(self@[*entry.0] == *entry.1);
                lemma_sum_of_grows(keys, self@, i + 1);
            }
            sum = sum + *entry.1 as LamportClock;
        }
        proof {
            assert(keys.take(keys.len() as int) =~= keys);
        }
        sum
    }

    fn duplicate(&self) -> (r: Self) {
        self.clone()
    }
}

/// The reference version service: answers at once, with the version that
/// `OrdinaryVersion::update` computes.
#[derive(Debug)]
pub struct OrdinaryVersionService;

impl OrdinaryVersionService {
    /// Answers a request for a version. The version handed out is strictly
    /// after the one that the request started from, and strictly after every
    /// dependency in it. There is none where the counter of the key cannot
    /// be raised any more.
    pub fn send(&mut self, update: Update<OrdinaryVersion>) -> (r: Result<
        UpdateOk<OrdinaryVersion>,
        Error,
    >)
        ensures
            match r {
                Ok(update_ok) => {
                    &&& counter(merged_all(update.prev@, views(update.deps@)), update.id)
                        < u32::MAX
                    &&& update_ok.id == update.id
                    &&& update_ok.version_deps@ == updated(
                        update.prev@,
                        views(update.deps@),
                        update.id,
                    )
                    &&& causal_order(update_ok.version_deps@, update.prev@) == Some(
                        Ordering::Greater,
                    )
                    &&& forall|i: int|
                        0 <= i < update.deps@.len() ==> causal_order(
                            update_ok.version_deps@,
                            (#[trigger] update.deps@[i])@,
                        ) == Some(Ordering::Greater)
                },
                Err(error) => error == Error::Exhausted && counter(
                    merged_all(update.prev@, views(update.deps@)),
                    update.id,
                ) == u32::MAX,
            },
    {
        match update.prev.checked_update(&update.deps, update.id) {
            Some(version_deps) => {
                proof {
                    lemma_update_dominates(update.prev@, views(update.deps@), update.id);
                    assert forall|i: int| 0 <= i < update.deps@.len() implies causal_order(
                        updated(update.prev@, views(update.deps@), update.id),
                        (#[trigger] update.deps@[i])@,
                    ) == Some(Ordering::Greater) by {
                        assert(views(update.deps@)[i] == update.deps@[i]@);
                    }
                }
                Ok(UpdateOk { id: update.id, version_deps })
            },
            None => Err(Error::Exhausted),
        }
    }
}

/// The causal order is reflexive, and one version is after another exactly
/// when the other is before it.
pub proof fn lemma_causal_order_is_an_order(a: Map<KeyId, u32>, b: Map<KeyId, u32>)
    ensures
        causal_order(a, a) == Some(Ordering::Equal),
        causal_order(a, b) == Some(Ordering::Greater) <==> causal_order(b, a) == Some(
            Ordering::Less,
        ),
        causal_order(a, b) == Some(Ordering::Equal) <==> causal_order(b, a) == Some(
            Ordering::Equal,
        ),
        causal_order(a, b) is None <==> causal_order(b, a) is None,
{
}

/// On a single key the dependency order is total: a version is at or after
/// itself, and one version is after another exactly when the other is before
/// it.
pub proof fn lemma_dep_order_is_total(a: Map<KeyId, u32>, b: Map<KeyId, u32>, id: KeyId)
    ensures
        dep_order(a, a, id) == Ordering::Equal,
        dep_order(a, b, id) == Ordering::Greater <==> dep_order(b, a, id) == Ordering::Less,
        dep_order(a, b, id) == Ordering::Equal <==> dep_order(b, a, id) == Ordering::Equal,
{
}

/// Merging never loses anything: the merge of two versions is at or after
/// each of them in the causal order.
pub proof fn lemma_merge_is_upper_bound(a: Map<KeyId, u32>, b: Map<KeyId, u32>)
    ensures
        covers(merged(a, b), a),
        covers(merged(a, b), b),
        causal_order(merged(a, b), a) == Some(Ordering::Greater) || causal_order(merged(a, b), a)
            == Some(Ordering::Equal),
        causal_order(merged(a, b), b) == Some(Ordering::Greater) || causal_order(merged(a, b), b)
            == Some(Ordering::Equal),
{
    let m = merged(a, b);
    assert forall|id: KeyId| counter(m, id) >= #[trigger] counter(a, id) by {}
    assert forall|id: KeyId| counter(m, id) >= #[trigger] counter(b, id) by {}
}

/// Merging does not depend on the order of its operands.
pub proof fn lemma_merge_commutative(a: Map<KeyId, u32>, b: Map<KeyId, u32>)
    ensures
        merged(a, b) == merged(b, a),
{
    assert(merged(a, b) =~= merged(b, a));
}

/// Merging a version with itself changes nothing.
pub proof fn lemma_merge_idempotent(a: Map<KeyId, u32>)
    ensures
        merged(a, a) == a,
{
    assert(merged(a, a) =~= a);
}

/// A chain of merges covers where it started and everything merged in.
pub proof fn lemma_merged_all_covers(first: Map<KeyId, u32>, rest: Seq<Map<KeyId, u32>>)
    ensures
        covers(merged_all(first, rest), first),
        forall|i: int| 0 <= i < rest.len() ==> covers(merged_all(first, rest), #[trigger] rest[i]),
    decreases rest.len(),
{
    if rest.len() > 0 {
        let before = merged_all(first, rest.drop_last());
        let all = merged_all(first, rest);
        lemma_merged_all_covers(first, rest.drop_last());
        lemma_merge_is_upper_bound(before, rest.last());
        assert forall|id: KeyId| counter(all, id) >= #[trigger] counter(first, id) by {
            assert(counter(all, id) >= counter(before, id));
        }
        assert forall|i: int| 0 <= i < rest.len() implies covers(all, #[trigger] rest[i]) by {
            if i < rest.len() - 1 {
                assert(rest.drop_last()[i] == rest[i]);
                assert(covers(before, rest[i]));
                assert forall|id: KeyId| counter(all, id) >= #[trigger] counter(rest[i], id) by {
                    assert(counter(all, id) >= counter(before, id));
                }
            }
        }
    }
}

/// The version that an update hands out is strictly after the version it
/// started from and strictly after every dependency it was given.
pub proof fn lemma_update_dominates(prev: Map<KeyId, u32>, deps: Seq<Map<KeyId, u32>>, id: KeyId)
    requires
        counter(merged_all(prev, deps), id) < u32::MAX,
    ensures
        causal_order(updated(prev, deps, id), prev) == Some(Ordering::Greater),
        forall|i: int|
            0 <= i < deps.len() ==> causal_order(updated(prev, deps, id), #[trigger] deps[i])
                == Some(Ordering::Greater),
{
    let all = merged_all(prev, deps);
    let next = updated(prev, deps, id);
    lemma_merged_all_covers(prev, deps);
    assert(counter(next, id) == counter(all, id) + 1);
    assert forall|k: KeyId| counter(next, k) >= #[trigger] counter(all, k) by {}
    assert forall|k: KeyId| counter(next, k) >= #[trigger] counter(prev, k) by {
        assert(counter(next, k) >= counter(all, k));
    }
    assert(counter(all, id) >= counter(prev, id));
    assert(!covers(prev, next)) by {
        assert(counter(prev, id) < counter(next, id));
    }
    assert forall|i: int| 0 <= i < deps.len() implies causal_order(next, #[trigger] deps[i])
        == Some(Ordering::Greater) by {
        let d = deps[i];
        assert(covers(all, d));
        assert forall|k: KeyId| counter(next, k) >= #[trigger] counter(d, k) by {
            assert(counter(next, k) >= counter(all, k));
        }
        assert(counter(all, id) >= counter(d, id));
        assert(!covers(d, next)) by {
            assert(counter(d, id) < counter(next, id));
        }
    }
}

} // verus!
