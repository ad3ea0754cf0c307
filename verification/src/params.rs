//! The parameters of one `Forwarded` entry, as a finite mapping from names to
//! values.

use vstd::prelude::*;
use crate::text::str_eq;

verus! {

/// The mapping that a sequence of pairs stands for, a later pair replacing an
/// earlier one of the same name.
pub open spec fn mapping(pairs: Seq<(Seq<char>, Seq<char>)>) -> Map<Seq<char>, Seq<char>>
    decreases pairs.len(),
{
    if pairs.len() == 0 {
        Map::empty()
    } else {
        mapping(pairs.drop_last()).insert(pairs.last().0, pairs.last().1)
    }
}

/// Whether no name occurs twice among `pairs`.
pub open spec fn distinct_names(pairs: Seq<(Seq<char>, Seq<char>)>) -> bool {
    forall|i: int, j: int| 0 <= i < j < pairs.len() ==> pairs[i].0 != pairs[j].0
}

/// Whether `pairs` lists `map` exactly: each pair is in `map`, each name of
/// `map` is that of a pair.
pub open spec fn lists(pairs: Seq<(Seq<char>, Seq<char>)>, map: Map<Seq<char>, Seq<char>>) -> bool {
    &&& forall|i: int|
        0 <= i < pairs.len() ==> map.contains_pair(#[trigger] pairs[i].0, pairs[i].1)
    &&& forall|name: Seq<char>| #[trigger]
        map.dom().contains(name) ==> exists|i: int| 0 <= i < pairs.len() && pairs[i].0 == name
}

/// With distinct names, a sequence of pairs lists the mapping it stands for.
pub proof fn lemma_mapping_lists(pairs: Seq<(Seq<char>, Seq<char>)>)
    requires
        distinct_names(pairs),
    ensures
        lists(pairs, mapping(pairs)),
        mapping(pairs).dom().finite(),
    decreases pairs.len(),
{
    if pairs.len() > 0 {
        let front = pairs.drop_last();
        lemma_mapping_lists(front);
        let map = mapping(pairs);
        assert forall|i: int| 0 <= i < pairs.len() implies map.contains_pair(
            #[trigger] pairs[i].0,
            pairs[i].1,
        ) by {
            if i < pairs.len() - 1 {
                assert(front[i] == pairs[i]);
                assert(mapping(front).contains_pair(front[i].0, front[i].1));
            }
        }
        assert forall|name: Seq<char>| #[trigger] map.dom().contains(name) implies exists|i: int|
            0 <= i < pairs.len() && pairs[i].0 == name by {
            if name == pairs.last().0 {
                assert(pairs[pairs.len() - 1].0 == name);
            } else {
                assert(mapping(front).dom().contains(name));
                let i = choose|i: int| 0 <= i < front.len() && front[i].0 == name;
                assert(pairs[i].0 == name);
            }
        }
    }
}

spec fn paired(entries: Seq<(String, String)>) -> Seq<(Seq<char>, Seq<char>)> {
    entries.map_values(|e: (String, String)| (e.0@, e.1@))
}

/// The parameters of one `Forwarded` entry: each name once, with its value.
pub struct ForwardedParams {
    entries: Vec<(String, String)>,
}

impl View for ForwardedParams {
    type V = Map<Seq<char>, Seq<char>>;

    /// The mapping from names to values.
    closed spec fn view(&self) -> Map<Seq<char>, Seq<char>> {
        mapping(self.pairs())
    }
}

impl ForwardedParams {
    /// The pairs in the order in which their names first came in.
    pub closed spec fn pairs(&self) -> Seq<(Seq<char>, Seq<char>)> {
        paired(self.entries@)
    }

    #[verifier::type_invariant]
    spec fn names_once(&self) -> bool {
        distinct_names(self.pairs())
    }

    /// No parameters.
    pub fn new() -> (params: Self)
        ensures
            params@ == Map::<Seq<char>, Seq<char>>::empty(),
            params.pairs().len() == 0,
    {
        ForwardedParams { entries: Vec::new() }
    }

    /// The number of parameters.
    pub fn len(&self) -> (n: usize)
        ensures
            n == self.pairs().len(),
            n == self@.len(),
            lists(self.pairs(), self@),
            distinct_names(self.pairs()),
            self@.dom().finite(),
    {
        proof {
            use_type_invariant(self);
            lemma_mapping_lists(self.pairs());
            lemma_len(self.pairs());
        }
        self.entries.len()
    }

    /// The name of the parameter at `index`.
    pub fn name(&self, index: usize) -> (name: &str)
        requires
            index < self.pairs().len(),
        ensures
            name@ == self.pairs()[index as int].0,
    {
        self.entries[index].0.as_str()
    }

    /// The value of the parameter at `index`.
    pub fn value(&self, index: usize) -> (value: &str)
        requires
            index < self.pairs().len(),
        ensures
            value@ == self.pairs()[index as int].1,
    {
        self.entries[index].1.as_str()
    }

    /// The value recorded under `name`, if any.
    pub fn get(&self, name: &str) -> (value: Option<&str>)
        ensures
            match value {
                Some(v) => self@.contains_pair(name@, v@),
                None => !self@.dom().contains(name@),
            },
    {
        proof {
            use_type_invariant(self);
            lemma_mapping_lists(self.pairs());
        }
        let mut i: usize = 0;
        while i < self.entries.len()
            invariant
                i <= self.entries.len(),
                lists(self.pairs(), self@),
                forall|j: int| 0 <= j < i ==> self.pairs()[j].0 != name@,
            decreases self.entries.len() - i,
        {
            if str_eq(self.entries[i].0.as_str(), name) {
                assert(self.pairs()[i as int].0 == name@);
                return Some(self.entries[i].1.as_str());
            }
            i += 1;
        }
        None
    }

    /// Records `value` under `name`, in place of what was recorded there.
    pub fn insert(&mut self, name: String, value: String)
        ensures
            final(self)@ == old(self)@.insert(name@, value@),
    {
        proof {
            use_type_invariant(&*self);
        }
        let ghost before = self.pairs();
        let mut entries: Vec<(String, String)> = Vec::new();
        core::mem::swap(&mut self.entries, &mut entries);
        let mut i: usize = 0;
        while i < entries.len()
            invariant
                i <= entries.len(),
                paired(entries@) == before,
                forall|j: int| 0 <= j < i ==> before[j].0 != name@,
            ensures
                i < entries.len() ==> before[i as int].0 == name@,
            decreases entries.len() - i,
        {
            if str_eq(entries[i].0.as_str(), name.as_str()) {
                assert(before[i as int].0 == entries@[i as int].0@);
                break ;
            }
            i += 1;
        }
        if i < entries.len() {
            entries.set(i, (name, value));
            proof {
                assert(paired(entries@) == before.update(i as int, (before[i as int].0, value@)));
                lemma_mapping_update(before, i as int, value@);
            }
        } else {
            entries.push((name, value));
            proof {
                assert(paired(entries@) == before.push((name@, value@)));
                assert(paired(entries@).drop_last() == before);
            }
        }
        self.entries = entries;
    }
}

/// The mapping of pairs with distinct names has as many entries as there are
/// pairs.
pub proof fn lemma_len(pairs: Seq<(Seq<char>, Seq<char>)>)
    requires
        distinct_names(pairs),
    ensures
        mapping(pairs).dom().finite(),
        mapping(pairs).len() == pairs.len(),
    decreases pairs.len(),
{
    if pairs.len() > 0 {
        let front = pairs.drop_last();
        lemma_len(front);
        lemma_mapping_lists(front);
        if mapping(front).dom().contains(pairs.last().0) {
            let i = choose|i: int| 0 <= i < front.len() && front[i].0 == pairs.last().0;
            assert(pairs[i].0 == pairs[pairs.len() - 1].0);
        }
    }
}

/// Replacing the value of the pair at `index` replaces it in the mapping.
pub proof fn lemma_mapping_update(pairs: Seq<(Seq<char>, Seq<char>)>, index: int, value: Seq<char>)
    requires
        distinct_names(pairs),
        0 <= index < pairs.len(),
    ensures
        mapping(pairs.update(index, (pairs[index].0, value))) == mapping(pairs).insert(
            pairs[index].0,
            value,
        ),
        distinct_names(pairs.update(index, (pairs[index].0, value))),
    decreases pairs.len(),
{
    let name = pairs[index].0;
    let changed = pairs.update(index, (name, value));
    if index == pairs.len() - 1 {
        assert(changed.drop_last() == pairs.drop_last());
        assert(mapping(changed) =~= mapping(pairs).insert(name, value));
    } else {
        let front = pairs.drop_last();
        lemma_mapping_update(front, index, value);
        assert(changed.drop_last() == front.update(index, (name, value)));
        assert(front[index] == pairs[index]);
        assert(pairs[index].0 != pairs[pairs.len() - 1].0);
        assert(mapping(changed) =~= mapping(pairs).insert(name, value));
    }
}

} // verus!
