//! A bounded cache of decisions, least recently used first out, and a matcher
//! that remembers its answers in one.

use vstd::prelude::*;
use crate::matcher::Matcher;
use crate::text::str_eq;

verus! {

/// Whether `order` holds an entry for `host`.
pub open spec fn holds(order: Seq<(Seq<char>, bool)>, host: Seq<char>) -> bool {
    exists|i: int| 0 <= i < order.len() && (#[trigger] order[i]).0 == host
}

/// The place of the entry for `host` in `order`, where there is one.
pub open spec fn slot(order: Seq<(Seq<char>, bool)>, host: Seq<char>) -> int {
    choose|i: int| 0 <= i < order.len() && (#[trigger] order[i]).0 == host
}

/// Whether no host has two entries in `order`.
pub open spec fn distinct_hosts(order: Seq<(Seq<char>, bool)>) -> bool {
    forall|i: int, j: int| 0 <= i < j < order.len() ==> order[i].0 != order[j].0
}

/// The decision that `order` holds for `host`, if any.
pub open spec fn lookup(order: Seq<(Seq<char>, bool)>, host: Seq<char>) -> Option<bool> {
    if holds(order, host) {
        Some(order[slot(order, host)].1)
    } else {
        None
    }
}

/// `order` after `host` was asked for: its entry, if there is one, has moved
/// to the end, where the most recently used entry stands.
pub open spec fn touched(order: Seq<(Seq<char>, bool)>, host: Seq<char>) -> Seq<(Seq<char>, bool)> {
    if holds(order, host) {
        order.remove(slot(order, host)).push(order[slot(order, host)])
    } else {
        order
    }
}

/// `order` after `decision` was stored for `host` in a cache of `capacity`
/// entries: the new entry stands at the end; it takes the place of an older
/// entry for the same host, or else, where the cache is full, of the least
/// recently used entry, which stands first. A cache without capacity stores
/// nothing.
pub open spec fn stored(
    order: Seq<(Seq<char>, bool)>,
    capacity: nat,
    host: Seq<char>,
    decision: bool,
) -> Seq<(Seq<char>, bool)> {
    if capacity == 0 {
        order
    } else if holds(order, host) {
        order.remove(slot(order, host)).push((host, decision))
    } else if order.len() >= capacity {
        order.drop_first().push((host, decision))
    } else {
        order.push((host, decision))
    }
}

spec fn listed(entries: Seq<(String, bool)>) -> Seq<(Seq<char>, bool)> {
    entries.map_values(|e: (String, bool)| (e.0@, e.1))
}

/// With distinct hosts, the place of an entry is the place of its host.
pub proof fn lemma_slot(order: Seq<(Seq<char>, bool)>, i: int)
    requires
        distinct_hosts(order),
        0 <= i < order.len(),
    ensures
        holds(order, order[i].0),
        slot(order, order[i].0) == i,
{
    let host = order[i].0;
    assert(order[i].0 == host);
    let j = slot(order, host);
    if j < i {
        assert(order[j].0 != order[i].0);
    } else if i < j {
        assert(order[i].0 != order[j].0);
    }
}

/// A cache of decisions by host, of bounded size. When it is full, a new
/// entry drives out the entry that was used least recently.
pub struct DecisionCache {
    entries: Vec<(String, bool)>,
    capacity: usize,
}

impl DecisionCache {
    /// The entries, from the least to the most recently used.
    pub closed spec fn order(&self) -> Seq<(Seq<char>, bool)> {
        listed(self.entries@)
    }

    /// The number of entries that the cache can hold.
    pub closed spec fn capacity(&self) -> nat {
        self.capacity as nat
    }

    #[verifier::type_invariant]
    spec fn bounded(&self) -> bool {
        distinct_hosts(self.order()) && self.order().len() <= self.capacity()
    }

    /// An empty cache for up to `capacity` entries.
    pub fn new(capacity: usize) -> (cache: Self)
        ensures
            cache.order().len() == 0,
            cache.capacity() == capacity,
    {
        DecisionCache { entries: Vec::new(), capacity }
    }

    /// The number of entries.
    pub fn len(&self) -> (n: usize)
        ensures
            n == self.order().len(),
            n <= self.capacity(),
            distinct_hosts(self.order()),
    {
        proof {
            use_type_invariant(self);
        }
        self.entries.len()
    }

    /// The number of entries that the cache can hold.
    pub fn limit(&self) -> (capacity: usize)
        ensures
            capacity == self.capacity(),
    {
        self.capacity
    }

    /// The decision stored for `host`, if there is one. The entry becomes the
    /// most recently used.
    pub fn get(&mut self, host: &str) -> (decision: Option<bool>)
        ensures
            decision == lookup(old(self).order(), host@),
            final(self).order() == touched(old(self).order(), host@),
            final(self).capacity() == old(self).capacity(),
    {
        proof {
            use_type_invariant(&*self);
        }
        let ghost before = self.order();
        let mut entries: Vec<(String, bool)> = Vec::new();
        core::mem::swap(&mut self.entries, &mut entries);
        let mut i: usize = 0;
        while i < entries.len()
            invariant
                i <= entries.len(),
                listed(entries@) == before,
                forall|j: int| 0 <= j < i ==> (#[trigger] before[j]).0 != host@,
            ensures
                i <= entries.len(),
                i < entries.len() ==> before[i as int].0 == host@,
                i == entries.len() ==> !holds(before, host@),
            decreases entries.len() - i,
        {
            if str_eq(entries[i].0.as_str(), host) {
                assert(before[i as int].0 == entries@[i as int].0@);
                break ;
            }
            i += 1;
        }
        if i < entries.len() {
            proof {
                lemma_slot(before, i as int);
            }
            let entry = entries.remove(i);
            let decision = entry.1;
            entries.push(entry);
            assert(listed(entries@) == before.remove(i as int).push(before[i as int]));
            proof {
                lemma_moved_distinct(before, i as int, before[i as int]);
            }
            self.entries = entries;
            Some(decision)
        } else {
            self.entries = entries;
            None
        }
    }

    /// Stores `decision` for `host` as the most recently used entry.
    pub fn put(&mut self, host: String, decision: bool)
        ensures
            final(self).order() == stored(old(self).order(), old(self).capacity(), host@, decision),
            final(self).capacity() == old(self).capacity(),
    {
        proof {
            use_type_invariant(&*self);
        }
        if self.capacity == 0 {
            return ;
        }
        let ghost before = self.order();
        let mut entries: Vec<(String, bool)> = Vec::new();
        core::mem::swap(&mut self.entries, &mut entries);
        let mut i: usize = 0;
        while i < entries.len()
            invariant
                i <= entries.len(),
                listed(entries@) == before,
                forall|j: int| 0 <= j < i ==> (#[trigger] before[j]).0 != host@,
            ensures
                i <= entries.len(),
                i < entries.len() ==> before[i as int].0 == host@,
                i == entries.len() ==> !holds(before, host@),
            decreases entries.len() - i,
        {
            if str_eq(entries[i].0.as_str(), host.as_str()) {
                assert(before[i as int].0 == entries@[i as int].0@);
                break ;
            }
            i += 1;
        }
        if i < entries.len() {
            proof {
                lemma_slot(before, i as int);
                lemma_moved_distinct(before, i as int, (host@, decision));
            }
            entries.remove(i);
            entries.push((host, decision));
            assert(listed(entries@) == before.remove(i as int).push((host@, decision)));
        } else if entries.len() >= self.capacity {
            entries.remove(0);
            entries.push((host, decision));
            assert(before.drop_first() == before.remove(0));
            assert(listed(entries@) == before.drop_first().push((host@, decision)));
            assert(distinct_hosts(listed(entries@))) by {
                let after = listed(entries@);
                assert forall|a: int, b: int| 0 <= a < b < after.len() implies after[a].0
                    != after[b].0 by {
                    assert(after[a] == before[a + 1]);
                    if b < after.len() - 1 {
                        assert(after[b] == before[b + 1]);
                    }
                }
            }
        } else {
            entries.push((host, decision));
            assert(listed(entries@) == before.push((host@, decision)));
        }
        self.entries = entries;
    }
}

/// Taking the entry at `i` out of a sequence with distinct hosts and putting
/// an entry for the same host at the end keeps the hosts distinct.
pub proof fn lemma_moved_distinct(order: Seq<(Seq<char>, bool)>, i: int, entry: (Seq<char>, bool))
    requires
        distinct_hosts(order),
        0 <= i < order.len(),
        entry.0 == order[i].0,
    ensures
        distinct_hosts(order.remove(i).push(entry)),
        order.remove(i).push(entry).len() == order.len(),
{
    let moved = order.remove(i).push(entry);
    assert forall|a: int, b: int| 0 <= a < b < moved.len() implies moved[a].0 != moved[b].0 by {
        let from_a = if a < i {
            a
        } else {
            a + 1
        };
        assert(moved[a] == order[from_a]);
        if b < moved.len() - 1 {
            let from_b = if b < i {
                b
            } else {
                b + 1
            };
            assert(moved[b] == order[from_b]);
        } else {
            if from_a < i {
                assert(order[from_a].0 != order[i].0);
            } else {
                assert(order[i].0 != order[from_a].0);
            }
        }
    }
}

/// Whether every decision in `order` is the answer of `matcher` for its host.
pub open spec fn agrees<M: Matcher>(order: Seq<(Seq<char>, bool)>, matcher: M) -> bool {
    forall|i: int| 0 <= i < order.len() ==> (#[trigger] order[i]).1 == matcher.matches(order[i].0)
}

/// A matcher together with a cache of the answers it has given. It gives the
/// answers of the matcher, whatever the cache holds and however small it is.
pub struct CachedMatcher<M: Matcher> {
    matcher: M,
    cache: DecisionCache,
}

impl<M: Matcher> CachedMatcher<M> {
    /// The matcher whose answers are remembered.
    pub closed spec fn inner(&self) -> M {
        self.matcher
    }

    /// The cache of the answers.
    pub closed spec fn cache(&self) -> DecisionCache {
        self.cache
    }

    #[verifier::type_invariant]
    spec fn faithful(&self) -> bool {
        agrees(self.cache.order(), self.matcher)
    }

    /// Gives `matcher` a cache for up to `capacity` answers.
    pub fn new(matcher: M, capacity: usize) -> (cached: Self)
        ensures
            cached.inner() == matcher,
            cached.cache().order().len() == 0,
            cached.cache().capacity() == capacity,
    {
        CachedMatcher { matcher, cache: DecisionCache::new(capacity) }
    }

    /// The matcher whose answers are remembered.
    pub fn matcher(&self) -> (matcher: &M)
        ensures
            *matcher == self.inner(),
    {
        &self.matcher
    }

    /// The number of answers that are remembered.
    pub fn len(&self) -> (n: usize)
        ensures
            n == self.cache().order().len(),
            agrees(self.cache().order(), self.inner()),
    {
        proof {
            use_type_invariant(self);
        }
        self.cache.len()
    }

    /// Checks whether the matcher accepts `value`, by the cache where it holds
    /// the answer, else by the matcher, whose answer is then remembered.
    pub fn matches_value(&mut self, value: &str) -> (matched: bool)
        ensures
            matched == old(self).inner().matches(value@),
            final(self).inner() == old(self).inner(),
            final(self).cache().capacity() == old(self).cache().capacity(),
            final(self).cache().order() == (match lookup(old(self).cache().order(), value@) {
                Some(_) => touched(old(self).cache().order(), value@),
                None => stored(
                    old(self).cache().order(),
                    old(self).cache().capacity(),
                    value@,
                    matched,
                ),
            }),
    {
        proof {
            use_type_invariant(&*self);
        }
        let ghost before = self.cache.order();
        let mut cache = DecisionCache::new(0);
        core::mem::swap(&mut self.cache, &mut cache);
        let ghost capacity = cache.capacity();
        let known = cache.get(value);
        let matched = match known {
            Some(decision) => {
                proof {
                    let i = slot(before, value@);
                    assert(before[i].0 == value@);
                    lemma_touched_agrees(before, value@, self.matcher);
                }
                decision
            },
            None => {
                let decision = self.matcher.matches_value(value);
                cache.put(value.to_owned(), decision);
                proof {
                    lemma_stored_agrees(before, capacity, value@, decision, self.matcher);
                }
                decision
            },
        };
        self.cache = cache;
        matched
    }
}

/// Moving an entry to the end keeps the agreement with a matcher.
pub proof fn lemma_touched_agrees<M: Matcher>(
    order: Seq<(Seq<char>, bool)>,
    host: Seq<char>,
    matcher: M,
)
    requires
        agrees(order, matcher),
    ensures
        agrees(touched(order, host), matcher),
{
    if holds(order, host) {
        let i = slot(order, host);
        let moved = touched(order, host);
        assert forall|k: int| 0 <= k < moved.len() implies (#[trigger] moved[k]).1
            == matcher.matches(moved[k].0) by {
            if k < moved.len() - 1 {
                let from = if k < i {
                    k
                } else {
                    k + 1
                };
                assert(moved[k] == order[from]);
            } else {
                assert(moved[k] == order[i]);
            }
        }
    }
}

/// Storing the answer of a matcher keeps the agreement with it.
pub proof fn lemma_stored_agrees<M: Matcher>(
    order: Seq<(Seq<char>, bool)>,
    capacity: nat,
    host: Seq<char>,
    decision: bool,
    matcher: M,
)
    requires
        agrees(order, matcher),
        decision == matcher.matches(host),
    ensures
        agrees(stored(order, capacity, host, decision), matcher),
{
    let after = stored(order, capacity, host, decision);
    if capacity != 0 {
        assert forall|k: int| 0 <= k < after.len() implies (#[trigger] after[k]).1
            == matcher.matches(after[k].0) by {
            if k < after.len() - 1 {
                if holds(order, host) {
                    let i = slot(order, host);
                    let from = if k < i {
                        k
                    } else {
                        k + 1
                    };
                    assert(after[k] == order[from]);
                } else if order.len() >= capacity {
                    assert(after[k] == order[k + 1]);
                } else {
                    assert(after[k] == order[k]);
                }
            }
        }
    }
}

} // verus!
