//! Matchers: predicates on a candidate string, and ways to combine them.

use vstd::prelude::*;
use crate::params::{lists, ForwardedParams};
use crate::text::str_eq;

verus! {

/// A predicate on strings.
///
/// An implementation fixes, by `matches`, the set of strings it accepts;
/// `matches_value` decides membership and has no other effect.
pub trait Matcher {
    /// Whether this matcher accepts `value`.
    spec fn matches(&self, value: Seq<char>) -> bool;

    /// Checks whether `value` is accepted by this matcher.
    fn matches_value(&self, value: &str) -> (matched: bool)
        ensures
            matched == self.matches(value@),
    ;
}

/// A predicate on the parameters of one `Forwarded` entry.
///
/// An implementation fixes, by `matches_pairs`, the mappings it accepts;
/// `matches_key_value` decides membership and has no other effect.
pub trait KeyValueMatcher {
    /// Whether this matcher accepts the mapping `values`.
    spec fn matches_pairs(&self, values: Map<Seq<char>, Seq<char>>) -> bool;

    /// Checks whether the parameters `values` are accepted by this matcher.
    fn matches_key_value(&self, values: &ForwardedParams) -> (matched: bool)
        ensures
            matched == self.matches_pairs(values@),
    ;
}

/// Accepts every string, and every mapping.
#[derive(Clone, Copy)]
pub struct Any;

impl Matcher for Any {
    open spec fn matches(&self, value: Seq<char>) -> bool {
        true
    }

    fn matches_value(&self, _value: &str) -> (matched: bool) {
        true
    }
}

impl KeyValueMatcher for Any {
    open spec fn matches_pairs(&self, values: Map<Seq<char>, Seq<char>>) -> bool {
        true
    }

    fn matches_key_value(&self, _values: &ForwardedParams) -> (matched: bool) {
        true
    }
}

/// Accepts what both of its operands accept.
pub struct And<L, R> {
    left: L,
    right: R,
}

impl<L, R> And<L, R> {
    /// The left operand.
    pub closed spec fn left(&self) -> L {
        self.left
    }

    /// The right operand.
    pub closed spec fn right(&self) -> R {
        self.right
    }

    /// Combines two matchers into one that requires both.
    pub fn new(left: L, right: R) -> (both: Self)
        ensures
            both.left() == left,
            both.right() == right,
    {
        Self { left, right }
    }
}

impl<L: Matcher, R: Matcher> Matcher for And<L, R> {
    open spec fn matches(&self, value: Seq<char>) -> bool {
        self.left().matches(value) && self.right().matches(value)
    }

    fn matches_value(&self, value: &str) -> (matched: bool) {
        self.left.matches_value(value) && self.right.matches_value(value)
    }
}

impl<L: KeyValueMatcher, R: KeyValueMatcher> KeyValueMatcher for And<L, R> {
    open spec fn matches_pairs(&self, values: Map<Seq<char>, Seq<char>>) -> bool {
        self.left().matches_pairs(values) && self.right().matches_pairs(values)
    }

    fn matches_key_value(&self, values: &ForwardedParams) -> (matched: bool) {
        self.left.matches_key_value(values) && self.right.matches_key_value(values)
    }
}

/// Accepts what at least one of its operands accepts.
pub struct Or<L, R> {
    left: L,
    right: R,
}

impl<L, R> Or<L, R> {
    /// The left operand.
    pub closed spec fn left(&self) -> L {
        self.left
    }

    /// The right operand.
    pub closed spec fn right(&self) -> R {
        self.right
    }

    /// Combines two matchers into one that requires either.
    pub fn new(left: L, right: R) -> (either: Self)
        ensures
            either.left() == left,
            either.right() == right,
    {
        Self { left, right }
    }
}

impl<L: KeyValueMatcher, R: KeyValueMatcher> KeyValueMatcher for Or<L, R> {
    open spec fn matches_pairs(&self, values: Map<Seq<char>, Seq<char>>) -> bool {
        self.left().matches_pairs(values) || self.right().matches_pairs(values)
    }

    fn matches_key_value(&self, values: &ForwardedParams) -> (matched: bool) {
        self.left.matches_key_value(values) || self.right.matches_key_value(values)
    }
}

impl<L: Matcher, R: Matcher> Matcher for Or<L, R> {
    open spec fn matches(&self, value: Seq<char>) -> bool {
        self.left().matches(value) || self.right().matches(value)
    }

    fn matches_value(&self, value: &str) -> (matched: bool) {
        self.left.matches_value(value) || self.right.matches_value(value)
    }
}

impl Matcher for String {
    open spec fn matches(&self, value: Seq<char>) -> bool {
        self@ == value
    }

    fn matches_value(&self, value: &str) -> (matched: bool) {
        str_eq(self.as_str(), value)
    }
}

impl Matcher for &str {
    open spec fn matches(&self, value: Seq<char>) -> bool {
        (*self)@ == value
    }

    fn matches_value(&self, value: &str) -> (matched: bool) {
        str_eq(*self, value)
    }
}

impl Matcher for () {
    open spec fn matches(&self, value: Seq<char>) -> bool {
        false
    }

    fn matches_value(&self, _value: &str) -> (matched: bool) {
        false
    }
}

impl KeyValueMatcher for () {
    open spec fn matches_pairs(&self, values: Map<Seq<char>, Seq<char>>) -> bool {
        false
    }

    fn matches_key_value(&self, _values: &ForwardedParams) -> (matched: bool) {
        false
    }
}

impl<M: Matcher> Matcher for Option<M> {
    open spec fn matches(&self, value: Seq<char>) -> bool {
        match self {
            Some(matcher) => matcher.matches(value),
            None => false,
        }
    }

    fn matches_value(&self, value: &str) -> (matched: bool) {
        match self {
            Some(matcher) => matcher.matches_value(value),
            None => false,
        }
    }
}

impl<M: KeyValueMatcher> KeyValueMatcher for Option<M> {
    open spec fn matches_pairs(&self, values: Map<Seq<char>, Seq<char>>) -> bool {
        match self {
            Some(matcher) => matcher.matches_pairs(values),
            None => false,
        }
    }

    fn matches_key_value(&self, values: &ForwardedParams) -> (matched: bool) {
        match self {
            Some(matcher) => matcher.matches_key_value(values),
            None => false,
        }
    }
}

impl<M: Matcher> Matcher for Box<M> {
    open spec fn matches(&self, value: Seq<char>) -> bool {
        (**self).matches(value)
    }

    fn matches_value(&self, value: &str) -> (matched: bool) {
        (**self).matches_value(value)
    }
}

impl<M: KeyValueMatcher> KeyValueMatcher for Box<M> {
    open spec fn matches_pairs(&self, values: Map<Seq<char>, Seq<char>>) -> bool {
        (**self).matches_pairs(values)
    }

    fn matches_key_value(&self, values: &ForwardedParams) -> (matched: bool) {
        (**self).matches_key_value(values)
    }
}

impl<M: Matcher> Matcher for &M {
    open spec fn matches(&self, value: Seq<char>) -> bool {
        (**self).matches(value)
    }

    fn matches_value(&self, value: &str) -> (matched: bool) {
        (**self).matches_value(value)
    }
}

impl<M: KeyValueMatcher> KeyValueMatcher for &M {
    open spec fn matches_pairs(&self, values: Map<Seq<char>, Seq<char>>) -> bool {
        (**self).matches_pairs(values)
    }

    fn matches_key_value(&self, values: &ForwardedParams) -> (matched: bool) {
        (**self).matches_key_value(values)
    }
}

/// A pair of matchers accepts a mapping that holds a name accepted by the
/// first together with a value accepted by the second.
impl<S: Matcher, M: Matcher> KeyValueMatcher for (S, M) {
    open spec fn matches_pairs(&self, values: Map<Seq<char>, Seq<char>>) -> bool {
        exists|name: Seq<char>|
            values.dom().contains(name) && self.0.matches(name) && self.1.matches(
                #[trigger] values[name],
            )
    }

    fn matches_key_value(&self, values: &ForwardedParams) -> (matched: bool) {
        let n = values.len();
        let mut i: usize = 0;
        while i < n
            invariant
                i <= n,
                n == values.pairs().len(),
                lists(values.pairs(), values@),
                forall|j: int|
                    0 <= j < i ==> !(self.0.matches(values.pairs()[j].0) && self.1.matches(
                        values.pairs()[j].1,
                    )),
            decreases n - i,
        {
            if self.0.matches_value(values.name(i)) && self.1.matches_value(values.value(i)) {
                proof {
                    let name = values.pairs()[i as int].0;
                    assert(values@.contains_pair(name, values.pairs()[i as int].1));
                    assert(self.1.matches(values@[name]));
                }
                return true;
            }
            i += 1;
        }
        proof {
            assert forall|name: Seq<char>|
                values@.dom().contains(name) && self.0.matches(name) implies !self.1.matches(
                #[trigger] values@[name],
            ) by {
                let j = choose|j: int| 0 <= j < values.pairs().len() && values.pairs()[j].0 == name;
                assert(values@.contains_pair(values.pairs()[j].0, values.pairs()[j].1));
            }
        }
        false
    }
}

/// A list of matchers is an allow-list: it accepts what at least one of them
/// accepts, and an empty list accepts nothing.
impl<M: Matcher> Matcher for Vec<M> {
    open spec fn matches(&self, value: Seq<char>) -> bool {
        allowed(self@, value)
    }

    fn matches_value(&self, value: &str) -> (matched: bool) {
        evaluate(value, self.as_slice())
    }
}

/// Whether at least one matcher of the allow-list accepts `authority`.
pub open spec fn allowed<M: Matcher>(matchers: Seq<M>, authority: Seq<char>) -> bool {
    exists|i: int| 0 <= i < matchers.len() && (#[trigger] matchers[i]).matches(authority)
}

/// Whether every matcher of `matchers` accepts `value`.
pub open spec fn all_match<M: Matcher>(matchers: Seq<M>, value: Seq<char>) -> bool {
    forall|i: int| 0 <= i < matchers.len() ==> (#[trigger] matchers[i]).matches(value)
}

/// Whether every matcher of `matchers` accepts the mapping `values`.
pub open spec fn all_match_pairs<M: KeyValueMatcher>(
    matchers: Seq<M>,
    values: Map<Seq<char>, Seq<char>>,
) -> bool {
    forall|i: int| 0 <= i < matchers.len() ==> (#[trigger] matchers[i]).matches_pairs(values)
}

/// An allow-list without matchers accepts nothing.
pub proof fn lemma_empty_allows_nothing<M: Matcher>(authority: Seq<char>)
    ensures
        !allowed(Seq::<M>::empty(), authority),
{
}

/// What an evaluation returns is fixed by the authority and the allow-list:
/// two evaluations of the same inputs return the same.
pub proof fn lemma_evaluation_repeats<M: Matcher>(
    matchers: Seq<M>,
    authority: Seq<char>,
    first: bool,
    second: bool,
)
    requires
        first == allowed(matchers, authority),
        second == allowed(matchers, authority),
    ensures
        first == second,
{
}

/// Tests `authority` against an allow-list, from its first matcher on.
pub fn evaluate<M: Matcher>(authority: &str, matchers: &[M]) -> (accepted: bool)
    ensures
        accepted == allowed(matchers@, authority@),
{
    let mut i: usize = 0;
    while i < matchers.len()
        invariant
            i <= matchers.len(),
            forall|j: int| 0 <= j < i ==> !(#[trigger] matchers@[j]).matches(authority@),
        decreases matchers.len() - i,
    {
        if matchers[i].matches_value(authority) {
            return true;
        }
        i += 1;
    }
    false
}

/// Accepts what every matcher of a list accepts; the empty list accepts
/// everything.
pub struct All<M>(pub Vec<M>);

impl<M: Matcher> Matcher for All<M> {
    open spec fn matches(&self, value: Seq<char>) -> bool {
        all_match(self.0@, value)
    }

    fn matches_value(&self, value: &str) -> (matched: bool) {
        let mut i: usize = 0;
        while i < self.0.len()
            invariant
                i <= self.0.len(),
                forall|j: int| 0 <= j < i ==> (#[trigger] self.0@[j]).matches(value@),
            decreases self.0.len() - i,
        {
            if !self.0[i].matches_value(value) {
                return false;
            }
            i += 1;
        }
        true
    }
}

impl<M: KeyValueMatcher> KeyValueMatcher for All<M> {
    open spec fn matches_pairs(&self, values: Map<Seq<char>, Seq<char>>) -> bool {
        all_match_pairs(self.0@, values)
    }

    fn matches_key_value(&self, values: &ForwardedParams) -> (matched: bool) {
        let mut i: usize = 0;
        while i < self.0.len()
            invariant
                i <= self.0.len(),
                forall|j: int| 0 <= j < i ==> (#[trigger] self.0@[j]).matches_pairs(values@),
            decreases self.0.len() - i,
        {
            if !self.0[i].matches_key_value(values) {
                return false;
            }
            i += 1;
        }
        true
    }
}

} // verus!
