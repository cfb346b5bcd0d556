use priority_queue::DoublePriorityQueue;
use std::collections::HashMap;
use std::hash::Hash;
use vstd::prelude::*;
use vstd::relations::{is_minimal, total_ordering};

verus! {

#[verifier::external_type_specification]
#[verifier::external_body]
#[verifier::reject_recursive_types(I)]
#[verifier::reject_recursive_types(P)]
#[verifier::reject_recursive_types(H)]
pub struct ExDoublePriorityQueue<I: Hash + Eq, P: Ord, H>(DoublePriorityQueue<I, P, H>);

/// Position of an entry in the age order: when it was last touched, the
/// touch counter at that moment, and the key itself (so no two entries tie).
pub type AgeKey = (u64, u64, u128);

/// The (item, priority) pairs that an age queue holds.
pub uninterp spec fn queue_entries(q: DoublePriorityQueue<u128, AgeKey>) -> Map<u128, AgeKey>;

/// Lexicographic order on age keys, the order std documents for tuples.
pub open spec fn age_lt(a: AgeKey, b: AgeKey) -> bool {
    a.0 < b.0 || (a.0 == b.0 && (a.1 < b.1 || (a.1 == b.1 && a.2 < b.2)))
}

pub open spec fn age_le(a: AgeKey, b: AgeKey) -> bool {
    a == b || age_lt(a, b)
}

/// Whether `(i, p)` is an entry of lowest priority in `m`.
pub open spec fn is_min_entry(m: Map<u128, AgeKey>, i: u128, p: AgeKey) -> bool {
    &&& m.contains_key(i)
    &&& m[i] == p
    &&& forall|j: u128| m.contains_key(j) ==> age_le(p, #[trigger] m[j])
}

/// Relies on DoublePriorityQueue::with_capacity: a new queue holds nothing.
#[verifier::external_body]
fn queue_new(capacity: usize) -> (q: DoublePriorityQueue<u128, AgeKey>)
    ensures
        queue_entries(q).dom() == Set::<u128>::empty(),
{
    DoublePriorityQueue::with_capacity(capacity)
}

/// Relies on DoublePriorityQueue::push: the item gets the priority, replacing an earlier one.
#[verifier::external_body]
fn queue_push(q: &mut DoublePriorityQueue<u128, AgeKey>, item: u128, priority: AgeKey)
    ensures
        queue_entries(*final(q)) == queue_entries(*old(q)).insert(item, priority),
{
    q.push(item, priority);
}

/// Relies on DoublePriorityQueue::get_priority: the priority of an item, if it is held.
#[verifier::external_body]
fn queue_priority(q: &DoublePriorityQueue<u128, AgeKey>, item: u128) -> (r: Option<AgeKey>)
    ensures
        r == queue_entries(*q).get(item),
{
    q.get_priority(&item).copied()
}

/// Relies on DoublePriorityQueue::peek_min: an entry of lowest priority, None when empty.
#[verifier::external_body]
fn queue_peek_min(q: &DoublePriorityQueue<u128, AgeKey>) -> (r: Option<(u128, AgeKey)>)
    ensures
        r is None <==> queue_entries(*q).dom() == Set::<u128>::empty(),
        r matches Some((i, p)) ==> is_min_entry(queue_entries(*q), i, p),
{
    q.peek_min().map(|(i, p)| (*i, *p))
}

/// Relies on DoublePriorityQueue::pop_min: removes and returns an entry of lowest priority.
#[verifier::external_body]
fn queue_pop_min(q: &mut DoublePriorityQueue<u128, AgeKey>) -> (r: Option<(u128, AgeKey)>)
    ensures
        r is None <==> queue_entries(*old(q)).dom() == Set::<u128>::empty(),
        r is None ==> queue_entries(*final(q)) == queue_entries(*old(q)),
        r matches Some((i, p)) ==> is_min_entry(queue_entries(*old(q)), i, p)
            && queue_entries(*final(q)) == queue_entries(*old(q)).remove(i),
{
    q.pop_min()
}

/// Whether `(i, p)` is an entry of highest priority in `m`.
pub open spec fn is_max_entry(m: Map<u128, AgeKey>, i: u128, p: AgeKey) -> bool {
    &&& m.contains_key(i)
    &&& m[i] == p
    &&& forall|j: u128| m.contains_key(j) ==> age_le(#[trigger] m[j], p)
}

/// Relies on DoublePriorityQueue::peek_max: an entry of highest priority, None when empty.
#[verifier::external_body]
fn queue_peek_max(q: &DoublePriorityQueue<u128, AgeKey>) -> (r: Option<(u128, AgeKey)>)
    ensures
        r is None <==> queue_entries(*q).dom() == Set::<u128>::empty(),
        r matches Some((i, p)) ==> is_max_entry(queue_entries(*q), i, p),
{
    q.peek_max().map(|(i, p)| (*i, *p))
}

/// Relies on DoublePriorityQueue::pop_max: removes and returns an entry of highest priority.
#[verifier::external_body]
fn queue_pop_max(q: &mut DoublePriorityQueue<u128, AgeKey>) -> (r: Option<(u128, AgeKey)>)
    ensures
        r is None <==> queue_entries(*old(q)).dom() == Set::<u128>::empty(),
        r is None ==> queue_entries(*final(q)) == queue_entries(*old(q)),
        r matches Some((i, p)) ==> is_max_entry(queue_entries(*old(q)), i, p)
            && queue_entries(*final(q)) == queue_entries(*old(q)).remove(i),
{
    q.pop_max()
}

/// An entry touched at `stamp` has reached the maximum age at `now`.
pub open spec fn aged(stamp: u64, now: u64, ttl: u64) -> bool {
    stamp <= now && now - stamp >= ttl
}

/// An entry touched at `stamp` is younger than the maximum age at `now`.
pub open spec fn live(stamp: u64, now: u64, ttl: u64) -> bool {
    stamp <= now && now - stamp < ttl
}

/// The counter value that follows `c`; it wraps, which only affects the
/// order of entries touched within the same clock tick.
pub open spec fn next_count(c: u64) -> u64 {
    if c == u64::MAX {
        0
    } else {
        (c + 1) as u64
    }
}

/// The abstract state of a [`PriorityMap`]: its values, and for each key the
/// time and counter of its last touch.
pub struct CacheModel<V> {
    pub entries: Map<u128, V>,
    pub touched: Map<u128, (u64, u64)>,
    pub ttl: u64,
    pub sweep_interval: u64,
    pub last_sweep: u64,
    pub capacity: nat,
    pub counter: u64,
}

impl<V> CacheModel<V> {
    pub open spec fn len(self) -> nat {
        self.entries.dom().len()
    }

    pub open spec fn stamp(self, k: u128) -> u64 {
        self.touched[k].0
    }

    pub open spec fn age_key(self, k: u128) -> AgeKey {
        (self.touched[k].0, self.touched[k].1, k)
    }

    /// `k` is the least recently touched key.
    pub open spec fn is_oldest(self, k: u128) -> bool {
        &&& self.touched.contains_key(k)
        &&& forall|j: u128| self.touched.contains_key(j) ==> age_le(self.age_key(k), #[trigger] self.age_key(j))
    }

    pub open spec fn oldest(self) -> u128 {
        choose|k: u128| self.is_oldest(k)
    }

    pub open spec fn sweep_due(self, now: u64) -> bool {
        now < self.last_sweep || now - self.last_sweep >= self.sweep_interval
    }

    /// The keys that a sweep at `now` keeps: the live ones. Entries that have
    /// reached the maximum age go, and so do entries stamped later than `now`
    /// (the clock went back), whose age cannot be told.
    pub open spec fn sweep_keeps(self, now: u64) -> Set<u128> {
        Set::new(|k: u128| live(self.stamp(k), now, self.ttl))
    }

    /// The state after the sweep that runs at `now`, if one is due.
    pub open spec fn swept(self, now: u64) -> Self {
        if self.sweep_due(now) {
            CacheModel {
                entries: self.entries.restrict(self.sweep_keeps(now)),
                touched: self.touched.restrict(self.sweep_keeps(now)),
                last_sweep: now,
                ..self
            }
        } else {
            self
        }
    }

    /// The state without its least recently touched entry.
    pub open spec fn without_oldest(self) -> Self {
        CacheModel {
            entries: self.entries.remove(self.oldest()),
            touched: self.touched.remove(self.oldest()),
            ..self
        }
    }

    /// The state after making room for one more entry: when full, the
    /// least recently touched entry is dropped.
    pub open spec fn evicted(self) -> Self {
        if self.len() >= self.capacity && self.len() > 0 {
            self.without_oldest()
        } else {
            self
        }
    }

    /// The state after `insert(k, v)` at `now`.
    pub open spec fn inserted(self, k: u128, v: V, now: u64) -> Self {
        let s = self.swept(now).evicted();
        CacheModel {
            entries: s.entries.insert(k, v),
            touched: s.touched.insert(k, (now, s.counter)),
            counter: next_count(s.counter),
            ..s
        }
    }

    /// The value that `insert(k, v)` at `now` replaces, if any.
    pub open spec fn replaced(self, k: u128, now: u64) -> Option<V> {
        self.swept(now).evicted().entries.get(k)
    }

    /// `get(k)` at `now` finds a value: `k` is present and its age is at most the ttl.
    pub open spec fn visible(self, k: u128, now: u64) -> bool {
        self.entries.contains_key(k) && self.stamp(k) <= now && now - self.stamp(k) <= self.ttl
    }

    /// The state after `get(k)` at `now`: a found entry becomes the most recently touched.
    pub open spec fn looked_up(self, k: u128, now: u64) -> Self {
        if self.visible(k, now) {
            CacheModel {
                touched: self.touched.insert(k, (now, self.counter)),
                counter: next_count(self.counter),
                ..self
            }
        } else {
            self
        }
    }

    /// The state with `v` stored under `k`, its touch record unchanged.
    pub open spec fn with_value(self, k: u128, v: V) -> Self {
        CacheModel { entries: self.entries.insert(k, v), ..self }
    }

    /// The entries and the touch records cover the same keys, and there are
    /// finitely many of them.
    pub open spec fn consistent(self) -> bool {
        &&& self.entries.dom() == self.touched.dom()
        &&& self.entries.dom().finite()
    }
}

/// `l` is live at `now` and no key of `keys` was touched before it.
pub open spec fn oldest_live_in<V>(keys: Set<u128>, m: CacheModel<V>, l: u128, now: u64) -> bool {
    &&& live(m.stamp(l), now, m.ttl)
    &&& forall|j: u128| #[trigger] keys.contains(j) ==> age_le(m.age_key(l), m.age_key(j))
}

/// `h` is stamped no later than `now` and no key of `keys` was touched after it.
pub open spec fn newest_past_in<V>(keys: Set<u128>, m: CacheModel<V>, h: u128, now: u64) -> bool {
    &&& m.stamp(h) <= now
    &&& forall|j: u128| #[trigger] keys.contains(j) ==> age_le(m.age_key(j), m.age_key(h))
}

/// Two least recently touched keys are the same key.
pub proof fn lemma_oldest_unique<V>(m: CacheModel<V>, k: u128)
    requires
        m.is_oldest(k),
    ensures
        m.oldest() == k,
{
    let o = m.oldest();
    assert(m.is_oldest(o));
    assert(age_le(m.age_key(k), m.age_key(o)));
    assert(age_le(m.age_key(o), m.age_key(k)));
}

/// Relies on HashMap::get_mut: a mutable reference to the value under a present key.
#[verifier::external_body]
fn map_get_mut<'a, V>(m: &'a mut HashMap<u128, V>, k: &u128) -> (r: Option<&'a mut V>)
    ensures
        r is Some <==> old(m)@.contains_key(*k),
        r is None ==> final(m)@ == old(m)@,
        r matches Some(v) ==> *v == old(m)@[*k] && final(m)@ == old(m)@.insert(*k, *final(v)),
{
    m.get_mut(k)
}

/// Relies on std's clock: milliseconds since the Unix epoch, 0 before it.
#[verifier::external_body]
pub(crate) fn clock_millis() -> u64 {
    match std::time::SystemTime::now().duration_since(std::time::UNIX_EPOCH) {
        Ok(d) => d.as_millis() as u64,
        Err(_) => 0,
    }
}

/// A bounded map from integer keys to values, with age-based expiry and
/// least-recently-touched eviction. Times are milliseconds.
pub struct PriorityMap<V> {
    data: HashMap<u128, V>,
    priority: DoublePriorityQueue<u128, AgeKey>,
    prune_after: u64,
    prune_check_interval: u64,
    last_prune: u64,
    capacity: usize,
    counter: u64,
}

impl<V> View for PriorityMap<V> {
    type V = CacheModel<V>;

    closed spec fn view(&self) -> CacheModel<V> {
        let q = queue_entries(self.priority);
        CacheModel {
            entries: self.data@,
            touched: Map::new(|k: u128| q.contains_key(k), |k: u128| (q[k].0, q[k].1)),
            ttl: self.prune_after,
            sweep_interval: self.prune_check_interval,
            last_sweep: self.last_prune,
            capacity: self.capacity as nat,
            counter: self.counter,
        }
    }
}

impl<V> PriorityMap<V> {
    /// Internal consistency: the value map and the age queue hold the same
    /// keys, each queued with itself as the last part of its priority, and a
    /// positive capacity bounds the size.
    pub closed spec fn wf(self) -> bool {
        let q = queue_entries(self.priority);
        &&& self.data@.dom() == q.dom()
        &&& forall|k: u128| q.contains_key(k) ==> (#[trigger] q[k]).2 == k
        &&& self.capacity > 0 ==> self.data@.len() <= self.capacity
    }

    /// What the internal consistency gives: the abstract state is consistent
    /// and within capacity.
    pub proof fn lemma_wf(&self)
        requires
            self.wf(),
        ensures
            self@.consistent(),
            self@.capacity > 0 ==> self@.len() <= self@.capacity,
    {
        let q = queue_entries(self.priority);
        assert(self@.touched.dom() =~= q.dom());
    }

    pub fn new(capacity: usize, prune_after: u64, prune_check_interval: u64) -> (m: Self)
        ensures
            m.wf(),
            m@.entries.dom() == Set::<u128>::empty(),
            m@.ttl == prune_after,
            m@.sweep_interval == prune_check_interval,
            m@.capacity == capacity,
    {
        let now = clock_millis();
        Self::new_at(capacity, prune_after, prune_check_interval, now)
    }

    /// A new empty map whose sweep clock starts at `now`.
    pub fn new_at(capacity: usize, prune_after: u64, prune_check_interval: u64, now: u64) -> (m:
        Self)
        ensures
            m.wf(),
            m@.entries.dom() == Set::<u128>::empty(),
            m@.touched.dom() == Set::<u128>::empty(),
            m@.ttl == prune_after,
            m@.sweep_interval == prune_check_interval,
            m@.last_sweep == now,
            m@.capacity == capacity,
            m@.counter == 0,
    {
        let m = PriorityMap {
            data: HashMap::with_capacity(capacity),
            priority: queue_new(capacity),
            prune_after,
            prune_check_interval,
            last_prune: now,
            capacity,
            counter: 0,
        };
        assert(m@.touched.dom() =~= Set::<u128>::empty());
        m
    }

    pub fn capacity(&self) -> (r: usize)
        ensures
            r == self@.capacity,
    {
        self.capacity
    }

    pub fn len(&self) -> (r: usize)
        requires
            self.wf(),
        ensures
            r == self@.len(),
    {
        self.data.len()
    }

    pub fn contains_key(&self, key: &u128) -> (r: bool)
        requires
            self.wf(),
        ensures
            r == self@.entries.contains_key(*key),
    {
        self.data.contains_key(key)
    }

    /// The value under `key`, without touching it or looking at its age.
    pub fn peek(&self, key: &u128) -> (r: Option<&V>)
        requires
            self.wf(),
        ensures
            r is Some <==> self@.entries.contains_key(*key),
            r matches Some(v) ==> *v == self@.entries[*key],
    {
        self.data.get(key)
    }

    /// Runs a sweep at `now` if one is due: drops entries from the oldest on
    /// while they are not live, then entries stamped later than `now` from
    /// the newest on.
    pub fn check_prune_at(&mut self, now: u64)
        requires
            old(self).wf(),
        ensures
            final(self).wf(),
            final(self)@ == old(self)@.swept(now),
    {
        if now < self.last_prune || now - self.last_prune >= self.prune_check_interval {
            let ghost m0 = self@;
            let ghost q0 = queue_entries(self.priority);
            proof {
                self.lemma_wf();
                self.lemma_age_keys();
                assert(m0.touched.dom() =~= q0.dom());
            }
            let mut done = false;
            while !done
                invariant
                    self.wf(),
                    self.prune_after == m0.ttl,
                    self.prune_check_interval == m0.sweep_interval,
                    self.last_prune == m0.last_sweep,
                    self.capacity == m0.capacity,
                    self.counter == m0.counter,
                    m0.consistent(),
                    m0.touched.dom() == q0.dom(),
                    forall|k: u128| #[trigger] q0.contains_key(k) ==> q0[k] == m0.age_key(k),
                    forall|k: u128| #[trigger]
                        self.data@.contains_key(k) ==> m0.entries.contains_key(k)
                            && self.data@[k] == m0.entries[k] && queue_entries(self.priority)[k]
                            == q0[k],
                    forall|k: u128|
                        #[trigger] m0.entries.contains_key(k) && !self.data@.contains_key(k) ==> !live(
                            m0.stamp(k),
                            now,
                            m0.ttl,
                        ),
                    done ==> self.data@.dom() == Set::<u128>::empty() || exists|l: u128|
                        #[trigger] self.data@.contains_key(l) && oldest_live_in(
                            self.data@.dom(),
                            m0,
                            l,
                            now,
                        ),
                decreases self.data@.len() + (if done { 0int } else { 1int }),
            {
                proof {
                    self.lemma_wf();
                }
                match queue_peek_min(&self.priority) {
                    None => {
                        done = true;
                    },
                    Some((key, prio)) => {
                        let ghost q = queue_entries(self.priority);
                        assert(self.data@.dom() == q.dom());
                        assert(self.data@.contains_key(key));
                        assert(q0.contains_key(key));
                        assert(q[key] == m0.age_key(key));
                        if prio.0 <= now && now - prio.0 < self.prune_after {
                            done = true;
                            assert forall|j: u128| #[trigger]
                                self.data@.contains_key(j) implies age_le(
                                m0.age_key(key),
                                m0.age_key(j),
                            ) by {
                                assert(q.contains_key(j));
                                assert(q0.contains_key(j));
                                assert(age_le(q[key], q[j]));
                            }
                            assert(oldest_live_in(self.data@.dom(), m0, key, now));
                        } else {
                            let _ = queue_pop_min(&mut self.priority);
                            self.data.remove(&key);
                        }
                    },
                }
            }
            proof {
                assert forall|k: u128| #[trigger] self.data@.contains_key(k) implies !aged(
                    m0.stamp(k),
                    now,
                    m0.ttl,
                ) by {
                    let l = choose|l: u128| #[trigger]
                        self.data@.contains_key(l) && oldest_live_in(self.data@.dom(), m0, l, now);
                    assert(age_le(m0.age_key(l), m0.age_key(k)));
                }
            }
            done = false;
            while !done
                invariant
                    self.wf(),
                    self.prune_after == m0.ttl,
                    self.prune_check_interval == m0.sweep_interval,
                    self.last_prune == m0.last_sweep,
                    self.capacity == m0.capacity,
                    self.counter == m0.counter,
                    m0.consistent(),
                    m0.touched.dom() == q0.dom(),
                    forall|k: u128| #[trigger] q0.contains_key(k) ==> q0[k] == m0.age_key(k),
                    forall|k: u128| #[trigger]
                        self.data@.contains_key(k) ==> m0.entries.contains_key(k)
                            && self.data@[k] == m0.entries[k] && queue_entries(self.priority)[k]
                            == q0[k] && !aged(m0.stamp(k), now, m0.ttl),
                    forall|k: u128|
                        #[trigger] m0.entries.contains_key(k) && !self.data@.contains_key(k) ==> !live(
                            m0.stamp(k),
                            now,
                            m0.ttl,
                        ),
                    done ==> self.data@.dom() == Set::<u128>::empty() || exists|h: u128|
                        #[trigger] self.data@.contains_key(h) && newest_past_in(
                            self.data@.dom(),
                            m0,
                            h,
                            now,
                        ),
                decreases self.data@.len() + (if done { 0int } else { 1int }),
            {
                proof {
                    self.lemma_wf();
                }
                match queue_peek_max(&self.priority) {
                    None => {
                        done = true;
                    },
                    Some((key, prio)) => {
                        let ghost q = queue_entries(self.priority);
                        assert(self.data@.dom() == q.dom());
                        assert(self.data@.contains_key(key));
                        assert(q0.contains_key(key));
                        assert(q[key] == m0.age_key(key));
                        if prio.0 <= now {
                            done = true;
                            assert forall|j: u128| #[trigger]
                                self.data@.contains_key(j) implies age_le(
                                m0.age_key(j),
                                m0.age_key(key),
                            ) by {
                                assert(q.contains_key(j));
                                assert(q0.contains_key(j));
                                assert(age_le(q[j], q[key]));
                            }
                            assert(newest_past_in(self.data@.dom(), m0, key, now));
                        } else {
                            let _ = queue_pop_max(&mut self.priority);
                            self.data.remove(&key);
                        }
                    },
                }
            }
            self.last_prune = now;
            proof {
                let m1 = self@;
                let keep = m0.sweep_keeps(now);
                assert forall|k: u128| #[trigger]
                    m0.entries.contains_key(k) implies (self.data@.contains_key(k) <==> keep.contains(
                        k,
                    )) by {
                    if self.data@.contains_key(k) {
                        let h = choose|h: u128| #[trigger]
                            self.data@.contains_key(h) && newest_past_in(self.data@.dom(), m0, h, now);
                        assert(age_le(m0.age_key(k), m0.age_key(h)));
                    }
                }
                assert(m1.entries =~= m0.entries.restrict(keep));
                assert(m1.touched =~= m0.touched.restrict(keep));
            }
        }
    }

    /// Drops the least recently touched entry, if there is one.
    fn prune_last(&mut self)
        requires
            old(self).wf(),
        ensures
            final(self).wf(),
            old(self)@.len() > 0 ==> final(self)@ == old(self)@.without_oldest(),
            old(self)@.len() > 0 ==> final(self)@.len() == old(self)@.len() - 1,
            old(self)@.len() == 0 ==> final(self)@ == old(self)@,
    {
        proof {
            self.lemma_wf();
            self.lemma_age_keys();
        }
        let ghost m0 = self@;
        let ghost q0 = queue_entries(self.priority);
        match queue_pop_min(&mut self.priority) {
            Some((key, _)) => {
                self.data.remove(&key);
                proof {
                    assert(q0.contains_key(key));
                    assert forall|j: u128| m0.touched.contains_key(j) implies age_le(
                        m0.age_key(key),
                        #[trigger] m0.age_key(j),
                    ) by {
                        assert(q0.contains_key(j));
                    }
                    lemma_oldest_unique(m0, key);
                    assert(self@.touched =~= m0.touched.remove(key));
                    assert(self@.entries =~= m0.entries.remove(key));
                }
            },
            None => {
                proof {
                    assert(m0.entries.dom() =~= Set::<u128>::empty());
                    assert(self@.touched =~= m0.touched);
                }
            },
        }
    }

    /// `insert` at time `now`: sweeps if due, makes room when full, then
    /// stores `value` under `key` as its most recently touched entry.
    /// Returns the value that was stored under `key`, if any.
    pub fn insert_at(&mut self, key: u128, value: V, now: u64) -> (r: Option<V>)
        requires
            old(self).wf(),
        ensures
            final(self).wf(),
            final(self)@ == old(self)@.inserted(key, value, now),
            r == old(self)@.replaced(key, now),
            final(self)@.capacity > 0 ==> final(self)@.len() <= final(self)@.capacity,
    {
        let ghost m0 = self@;
        self.check_prune_at(now);
        let ghost m1 = self@;
        proof {
            self.lemma_wf();
        }
        if self.data.len() >= self.capacity {
            self.prune_last();
        }
        let ghost m2 = self@;
        proof {
            self.lemma_wf();
            assert(m2 == m1.evicted());
        }
        queue_push(&mut self.priority, key, (now, self.counter, key));
        self.counter = if self.counter == u64::MAX {
            0
        } else {
            self.counter + 1
        };
        let r = self.data.insert(key, value);
        proof {
            assert(self@.touched =~= m2.touched.insert(key, (now, m2.counter)));
            assert(self@ == m0.inserted(key, value, now));
            if self.capacity > 0 {
                assert(m1.len() <= self.capacity);
                assert(m2.len() < self.capacity);
            }
            self.lemma_wf();
        }
        r
    }

    /// `get` at time `now`: the value under `key` when present and at most
    /// `ttl` old; a found entry becomes the most recently touched.
    pub fn get_at(&mut self, key: &u128, now: u64) -> (r: Option<&V>)
        requires
            old(self).wf(),
        ensures
            final(self).wf(),
            final(self)@ == old(self)@.looked_up(*key, now),
            r is Some <==> old(self)@.visible(*key, now),
            r matches Some(v) ==> *v == old(self)@.entries[*key],
    {
        proof {
            self.lemma_wf();
            self.lemma_age_keys();
        }
        let ghost m0 = self@;
        match queue_priority(&self.priority, *key) {
            None => {
                assert(!m0.entries.contains_key(*key));
                None
            },
            Some(p) => {
                if p.0 <= now && now - p.0 <= self.prune_after {
                    queue_push(&mut self.priority, *key, (now, self.counter, *key));
                    self.counter = if self.counter == u64::MAX {
                        0
                    } else {
                        self.counter + 1
                    };
                    proof {
                        assert(self@.touched =~= m0.touched.insert(*key, (now, m0.counter)));
                        assert(queue_entries(self.priority).dom() =~= self.data@.dom());
                    }
                    self.data.get(key)
                } else {
                    None
                }
            },
        }
    }

    /// `check_prune_at` at the current time of the system clock.
    pub fn check_prune(&mut self)
        requires
            old(self).wf(),
        ensures
            final(self).wf(),
            exists|now: u64| final(self)@ == old(self)@.swept(now),
    {
        let now = clock_millis();
        self.check_prune_at(now)
    }

    /// `insert` at the current time of the system clock.
    pub fn insert(&mut self, key: u128, value: V) -> (r: Option<V>)
        requires
            old(self).wf(),
        ensures
            final(self).wf(),
            exists|now: u64|
                final(self)@ == old(self)@.inserted(key, value, now) && r == old(self)@.replaced(
                    key,
                    now,
                ),
            final(self)@.capacity > 0 ==> final(self)@.len() <= final(self)@.capacity,
    {
        let now = clock_millis();
        self.insert_at(key, value, now)
    }

    /// `get` at the current time of the system clock.
    pub fn get(&mut self, key: &u128) -> (r: Option<&V>)
        requires
            old(self).wf(),
        ensures
            final(self).wf(),
            exists|now: u64|
                final(self)@ == old(self)@.looked_up(*key, now)
                    && (r is Some <==> old(self)@.visible(*key, now)),
            r matches Some(v) ==> *v == old(self)@.entries[*key],
    {
        let now = clock_millis();
        self.get_at(key, now)
    }

    /// `get_mut` at time `now`: sweeps if due, then behaves as `get_at`,
    /// handing out the value for modification.
    pub fn get_mut_at(&mut self, key: &u128, now: u64) -> (r: Option<&mut V>)
        requires
            old(self).wf(),
        ensures
            r is Some <==> old(self)@.swept(now).visible(*key, now),
            r is None ==> final(self)@ == old(self)@.swept(now),
            r matches Some(v) ==> *v == old(self)@.swept(now).entries[*key] && final(self)@ == old(
                self,
            )@.swept(now).looked_up(*key, now).with_value(*key, *final(v)),
            final(self).wf(),
    {
        self.check_prune_at(now);
        proof {
            self.lemma_wf();
            self.lemma_age_keys();
        }
        let ghost m0 = self@;
        match queue_priority(&self.priority, *key) {
            None => {
                assert(!m0.entries.contains_key(*key));
                None
            },
            Some(p) => {
                if p.0 <= now && now - p.0 <= self.prune_after {
                    queue_push(&mut self.priority, *key, (now, self.counter, *key));
                    self.counter = if self.counter == u64::MAX {
                        0
                    } else {
                        self.counter + 1
                    };
                    proof {
                        assert(self@.touched =~= m0.touched.insert(*key, (now, m0.counter)));
                        assert(queue_entries(self.priority).dom() =~= self.data@.dom());
                    }
                    map_get_mut(&mut self.data, key)
                } else {
                    None
                }
            },
        }
    }

    /// `get_mut` at the current time of the system clock.
    pub fn get_mut(&mut self, key: &u128) -> (r: Option<&mut V>)
        requires
            old(self).wf(),
        ensures
            exists|now: u64|
                {
                    &&& (r is Some <==> old(self)@.swept(now).visible(*key, now))
                    &&& (r is None ==> final(self)@ == old(self)@.swept(now))
                    &&& (r matches Some(v) ==> *v == old(self)@.swept(now).entries[*key]
                        && final(self)@ == old(self)@.swept(now).looked_up(*key, now).with_value(
                        *key,
                        *final(v),
                    ))
                },
            final(self).wf(),
    {
        let now = clock_millis();
        self.get_mut_at(key, now)
    }

    proof fn lemma_age_keys(&self)
        requires
            self.wf(),
        ensures
            forall|k: u128| #[trigger]
                queue_entries(self.priority).contains_key(k) ==> queue_entries(self.priority)[k]
                    == self@.age_key(k),
    {
    }
}


/// A non-empty consistent state has a least recently touched key.
pub proof fn lemma_oldest_exists<V>(m: CacheModel<V>)
    requires
        m.consistent(),
        m.len() > 0,
    ensures
        m.is_oldest(m.oldest()),
{
    let r = |a: u128, b: u128| age_le(m.age_key(a), m.age_key(b));
    assert(total_ordering(r)) by {
        assert forall|x: u128, y: u128, z: u128| #[trigger] r(x, y) && #[trigger] r(y, z) implies r(
            x,
            z,
        ) by {}
        assert forall|x: u128, y: u128| #[trigger] r(x, y) && #[trigger] r(y, x) implies x == y by {}
        assert forall|x: u128, y: u128| #[trigger] r(x, y) || #[trigger] r(y, x) by {}
    }
    let keys = m.touched.dom();
    keys.find_unique_minimal_ensures(r);
    let k = keys.find_unique_minimal(r);
    assert(is_minimal(r, k, keys));
    assert(m.is_oldest(k)) by {
        assert forall|j: u128| m.touched.contains_key(j) implies age_le(
            m.age_key(k),
            #[trigger] m.age_key(j),
        ) by {
            assert(keys.contains(j));
            assert(r(j, k) || r(k, j));
            if r(j, k) {
                assert(r(k, j));
            }
            assert(r(k, j) == age_le(m.age_key(k), m.age_key(j)));
        }
    }
    lemma_oldest_unique(m, k);
}

/// A map made with a positive capacity never holds more entries than that:
/// a new map is empty, and an insert into a map within capacity leaves it
/// within capacity.
pub proof fn lemma_insert_within_capacity<V>(m: CacheModel<V>, k: u128, v: V, now: u64)
    requires
        m.consistent(),
        m.capacity > 0,
        m.len() <= m.capacity,
    ensures
        m.inserted(k, v, now).consistent(),
        m.inserted(k, v, now).len() <= m.capacity,
{
    let s = m.swept(now);
    if m.sweep_due(now) {
        let keep = m.sweep_keeps(now);
        assert(s.entries.dom() =~= m.entries.dom().intersect(keep));
        assert(s.touched.dom() =~= m.touched.dom().intersect(keep));
        vstd::set_lib::lemma_len_subset(s.entries.dom(), m.entries.dom());
    }
    assert(s.consistent());
    assert(s.len() <= m.capacity);
    let e = s.evicted();
    if s.len() >= s.capacity && s.len() > 0 {
        lemma_oldest_exists(s);
        assert(e.entries.dom() =~= s.entries.dom().remove(s.oldest()));
        assert(e.touched.dom() =~= s.touched.dom().remove(s.oldest()));
    }
    assert(e.consistent());
    assert(e.len() < m.capacity);
    let f = m.inserted(k, v, now);
    assert(f.entries.dom() =~= e.entries.dom().insert(k));
    assert(f.touched.dom() =~= e.touched.dom().insert(k));
}

/// An entry that is present is found by `get` at any time from its last touch
/// until `ttl` later; in particular `insert(k, v)` followed by `get(k)` within
/// the ttl returns `v`.
pub proof fn lemma_insert_then_get<V>(m: CacheModel<V>, k: u128, v: V, now: u64, later: u64)
    requires
        now <= later,
        later - now <= m.ttl,
    ensures
        m.inserted(k, v, now).visible(k, later),
        m.inserted(k, v, now).entries[k] == v,
{
}

/// Operations on a key other than `k` never renew `k`: after them `k` is
/// either gone or still carries the stamp of its last touch.
pub proof fn lemma_other_keys_keep_stamp<V>(m: CacheModel<V>, j: u128, k: u128, v: V, now: u64)
    requires
        j != k,
    ensures
        m.inserted(j, v, now).touched.contains_key(k) ==> m.touched.contains_key(k) && m.inserted(
            j,
            v,
            now,
        ).stamp(k) == m.stamp(k),
        m.looked_up(j, now).touched.contains_key(k) ==> m.touched.contains_key(k) && m.looked_up(
            j,
            now,
        ).stamp(k) == m.stamp(k),
        m.swept(now).touched.contains_key(k) ==> m.touched.contains_key(k) && m.swept(now).stamp(k)
            == m.stamp(k),
{
}

/// A key last touched at `t1` is not found by `get` at a time `t2` more than
/// `ttl` later, whatever else happened to the map in between.
pub proof fn lemma_stale_entry_not_found<V>(m: CacheModel<V>, k: u128, t1: u64, t2: u64)
    requires
        m.touched.contains_key(k) ==> m.stamp(k) == t1,
        m.consistent(),
        t1 < t2,
        t2 - t1 > m.ttl,
    ensures
        !m.visible(k, t2),
        m.looked_up(k, t2) == m,
{
}

} // verus!
