//! Total orders: how two values stand to each other, types that are ordered, and sorting.

use crate::defs::AbsItemId;
use crate::defs::CrateDisambiguator;
use crate::text::lemma_text_order_flip;
use crate::text::lemma_text_order_transitive;
use crate::text::order_text;
use crate::text::text_order;
use vstd::prelude::*;

verus! {

/// How one value stands to another in a total order.
#[derive(Clone, Copy, Debug, PartialEq, Eq, Structural)]
pub enum Precedence {
    Before,
    Same,
    After,
}

impl Precedence {
    /// The order of the two values taken the other way round.
    pub open spec fn flip(self) -> Precedence {
        match self {
            Precedence::Before => Precedence::After,
            Precedence::Same => Precedence::Same,
            Precedence::After => Precedence::Before,
        }
    }

    /// The order of two pairs whose first components stand as `self` and whose second
    /// components stand as `next`.
    pub open spec fn followed_by(self, next: Precedence) -> Precedence {
        match self {
            Precedence::Same => next,
            _ => self,
        }
    }
}

/// How two integers stand to each other.
pub open spec fn int_order(a: int, b: int) -> Precedence {
    if a < b {
        Precedence::Before
    } else if a == b {
        Precedence::Same
    } else {
        Precedence::After
    }
}

/// A type whose members stand for values that a total order compares.
pub trait Ordered: Sized {
    /// What a member stands for.
    type Value;

    /// The value of this member.
    spec fn value(&self) -> Self::Value;

    /// How two values stand to each other.
    spec fn order(a: Self::Value, b: Self::Value) -> Precedence;

    /// Taking two values the other way round flips their order, and only a value and
    /// itself stand as `Same`.
    proof fn lemma_order_flip(a: Self::Value, b: Self::Value)
        ensures
            Self::order(b, a) == Self::order(a, b).flip(),
            Self::order(a, b) == Precedence::Same <==> a == b,
    ;

    /// The order is transitive.
    proof fn lemma_order_transitive(a: Self::Value, b: Self::Value, c: Self::Value)
        requires
            Self::order(a, b) != Precedence::After,
            Self::order(b, c) != Precedence::After,
        ensures
            Self::order(a, c) != Precedence::After,
            Self::order(a, c) == Precedence::Same ==> Self::order(a, b) == Precedence::Same
                && Self::order(b, c) == Precedence::Same,
    ;

    /// Compares this member with another.
    fn compare(&self, other: &Self) -> (r: Precedence)
        ensures
            r == Self::order(self.value(), other.value()),
    ;
}

/// How two unit identities stand: by their first number, then by their second.
pub open spec fn unit_order(a: CrateDisambiguator, b: CrateDisambiguator) -> Precedence {
    int_order(a.0 as int, b.0 as int).followed_by(int_order(a.1 as int, b.1 as int))
}

/// How two item numbers stand: by their unit, then by their slot.
pub open spec fn id_order(a: AbsItemId, b: AbsItemId) -> Precedence {
    unit_order(a.krate, b.krate).followed_by(int_order(a.index as int, b.index as int))
}

/// Compares two integers.
pub fn order_u64(a: u64, b: u64) -> (r: Precedence)
    ensures
        r == int_order(a as int, b as int),
{
    if a < b {
        Precedence::Before
    } else if a == b {
        Precedence::Same
    } else {
        Precedence::After
    }
}

/// Compares two unit identities.
pub fn order_units(a: &CrateDisambiguator, b: &CrateDisambiguator) -> (r: Precedence)
    ensures
        r == unit_order(*a, *b),
{
    match order_u64(a.0, b.0) {
        Precedence::Same => order_u64(a.1, b.1),
        other => other,
    }
}

/// Compares two item numbers.
pub fn order_ids(a: &AbsItemId, b: &AbsItemId) -> (r: Precedence)
    ensures
        r == id_order(*a, *b),
{
    match order_units(&a.krate, &b.krate) {
        Precedence::Same => order_u64(a.index as u64, b.index as u64),
        other => other,
    }
}

impl Ordered for AbsItemId {
    type Value = AbsItemId;

    open spec fn value(&self) -> AbsItemId {
        *self
    }

    open spec fn order(a: AbsItemId, b: AbsItemId) -> Precedence {
        id_order(a, b)
    }

    proof fn lemma_order_flip(a: AbsItemId, b: AbsItemId) {
    }

    proof fn lemma_order_transitive(a: AbsItemId, b: AbsItemId, c: AbsItemId) {
    }

    fn compare(&self, other: &AbsItemId) -> (r: Precedence) {
        order_ids(self, other)
    }
}

impl Ordered for String {
    type Value = Seq<char>;

    open spec fn value(&self) -> Seq<char> {
        self@
    }

    open spec fn order(a: Seq<char>, b: Seq<char>) -> Precedence {
        text_order(a, b)
    }

    proof fn lemma_order_flip(a: Seq<char>, b: Seq<char>) {
        lemma_text_order_flip(a, b);
    }

    proof fn lemma_order_transitive(a: Seq<char>, b: Seq<char>, c: Seq<char>) {
        lemma_text_order_transitive(a, b, c);
    }

    fn compare(&self, other: &String) -> (r: Precedence) {
        order_text(self.as_str(), other.as_str())
    }
}

/// The values that the members of `s` stand for.
pub open spec fn values_of<K: Ordered>(s: Seq<K>) -> Seq<K::Value> {
    Seq::new(s.len(), |i: int| s[i].value())
}

/// No value of `s` comes after a later one.
pub open spec fn sorted<K: Ordered>(s: Seq<K::Value>) -> bool {
    forall|i: int, j: int| 0 <= i < j < s.len() ==> K::order(s[i], s[j]) != Precedence::After
}

/// `a` does not come after `b`.
pub open spec fn not_after<K: Ordered>() -> spec_fn(K::Value, K::Value) -> bool {
    |a: K::Value, b: K::Value| K::order(a, b) != Precedence::After
}

/// Not to come after is a total order on the values.
pub proof fn lemma_not_after_is_total<K: Ordered>()
    ensures
        vstd::relations::total_ordering(not_after::<K>()),
{
    let leq = not_after::<K>();
    assert forall|x: K::Value| #[trigger] leq(x, x) by {
        K::lemma_order_flip(x, x);
    }
    assert forall|x: K::Value, y: K::Value| #[trigger] leq(x, y) && #[trigger] leq(y, x) implies x
        == y by {
        K::lemma_order_flip(x, y);
    }
    assert forall|x: K::Value, y: K::Value, z: K::Value| #[trigger]
        leq(x, y) && #[trigger] leq(y, z) implies leq(x, z) by {
        K::lemma_order_transitive(x, y, z);
    }
    assert forall|x: K::Value, y: K::Value| #[trigger] leq(x, y) || #[trigger] leq(y, x) by {
        K::lemma_order_flip(x, y);
    }
}

/// A collection of values has only one sorted arrangement: two sorted sequences that hold
/// the same values, each as often as the other, are the same sequence.
pub proof fn lemma_sorted_is_unique<K: Ordered>(a: Seq<K::Value>, b: Seq<K::Value>)
    requires
        sorted::<K>(a),
        sorted::<K>(b),
        a.to_multiset() == b.to_multiset(),
    ensures
        a == b,
{
    lemma_not_after_is_total::<K>();
    let leq = not_after::<K>();
    assert(vstd::relations::sorted_by(a, leq)) by {
        assert forall|i: int, j: int| 0 <= i < j < a.len() implies #[trigger] leq(a[i], a[j]) by {}
    }
    assert(vstd::relations::sorted_by(b, leq)) by {
        assert forall|i: int, j: int| 0 <= i < j < b.len() implies #[trigger] leq(b[i], b[j]) by {}
    }
    vstd::seq_lib::lemma_sorted_unique(a, b, leq);
}

/// Where `item` can be put into the sorted vector `v` so that it stays sorted.
fn place_of<K: Ordered>(v: &Vec<K>, item: &K) -> (at: usize)
    requires
        sorted::<K>(values_of(v@)),
    ensures
        at <= v@.len(),
        forall|i: int| 0 <= i < at ==> K::order(v@[i].value(), item.value()) != Precedence::After,
        forall|i: int|
            at <= i < v@.len() ==> K::order(item.value(), v@[i].value()) != Precedence::After,
{
    let mut low: usize = 0;
    let mut high: usize = v.len();
    while low < high
        invariant
            low <= high <= v@.len(),
            sorted::<K>(values_of(v@)),
            forall|i: int|
                0 <= i < low ==> K::order(v@[i].value(), item.value()) != Precedence::After,
            forall|i: int|
                high <= i < v@.len() ==> K::order(item.value(), v@[i].value())
                    != Precedence::After,
        decreases high - low,
    {
        let middle: usize = low + (high - low) / 2;
        let ghost pivot = v@[middle as int].value();
        let ghost values = values_of(v@);
        match v[middle].compare(item) {
            Precedence::After => {
                assert forall|i: int| middle <= i < v@.len() implies K::order(
                    item.value(),
                    v@[i].value(),
                ) != Precedence::After by {
                    K::lemma_order_flip(pivot, item.value());
                    if middle < i {
                        assert(K::order(values[middle as int], values[i]) != Precedence::After);
                    } else {
                        K::lemma_order_flip(pivot, pivot);
                    }
                    K::lemma_order_transitive(item.value(), pivot, v@[i].value());
                }
                high = middle;
            },
            _ => {
                assert forall|i: int| 0 <= i < middle + 1 implies K::order(
                    v@[i].value(),
                    item.value(),
                ) != Precedence::After by {
                    if i < middle {
                        assert(K::order(values[i], values[middle as int]) != Precedence::After);
                    } else {
                        K::lemma_order_flip(pivot, pivot);
                    }
                    K::lemma_order_transitive(v@[i].value(), pivot, item.value());
                }
                low = middle + 1;
            },
        }
    }
    low
}

/// Sorts the members of `items` by their values.
pub fn sort<K: Ordered>(items: Vec<K>) -> (ordered: Vec<K>)
    ensures
        sorted::<K>(values_of(ordered@)),
        values_of(ordered@).to_multiset() == values_of(items@).to_multiset(),
{
    let ghost given = values_of(items@);
    let mut rest = items;
    let mut ordered: Vec<K> = Vec::new();
    proof {
        assert(values_of(ordered@) =~= Seq::<K::Value>::empty());
        assert(values_of(ordered@).to_multiset() =~= vstd::multiset::Multiset::empty()) by {
            broadcast use vstd::seq_lib::group_to_multiset_ensures;

        }
        assert(values_of(ordered@).to_multiset().add(values_of(rest@).to_multiset())
            =~= given.to_multiset()) by {
            broadcast use vstd::multiset::group_multiset_axioms;

        }
    }
    while rest.len() > 0
        invariant
            sorted::<K>(values_of(ordered@)),
            values_of(ordered@).to_multiset().add(values_of(rest@).to_multiset())
                == given.to_multiset(),
        decreases rest@.len(),
    {
        let ghost rest_before = values_of(rest@);
        let ghost ordered_before = values_of(ordered@);
        let item = rest.pop().unwrap();
        let at = place_of(&ordered, &item);
        ordered.insert(at, item);
        proof {
            broadcast use vstd::multiset::group_multiset_axioms;

            let last = rest_before.len() - 1;
            assert(values_of(rest@) =~= rest_before.remove(last));
            assert(values_of(ordered@) =~= ordered_before.insert(at as int, item.value()));
            vstd::seq_lib::to_multiset_remove(rest_before, last);
            vstd::seq_lib::to_multiset_insert(ordered_before, at as int, item.value());
            assert(rest_before[last] == item.value());
            vstd::seq_lib::to_multiset_contains(rest_before, item.value());
            assert(rest_before.contains(item.value()));
            assert(values_of(ordered@).to_multiset().add(values_of(rest@).to_multiset())
                =~= ordered_before.to_multiset().add(rest_before.to_multiset()));
            let now = values_of(ordered@);
            assert forall|i: int, j: int| 0 <= i < j < now.len() implies K::order(now[i], now[j])
                != Precedence::After by {
                if j < at {
                    assert(now[i] == ordered_before[i] && now[j] == ordered_before[j]);
                } else if j == at {
                    assert(now[i] == ordered_before[i]);
                } else if i < at {
                    assert(now[i] == ordered_before[i] && now[j] == ordered_before[j - 1]);
                } else if i == at {
                    assert(now[j] == ordered_before[j - 1]);
                } else {
                    assert(now[i] == ordered_before[i - 1] && now[j] == ordered_before[j - 1]);
                }
            }
        }
    }
    proof {
        broadcast use vstd::multiset::group_multiset_axioms;

        assert(values_of(rest@) =~= Seq::<K::Value>::empty());
        assert(values_of(rest@).to_multiset() =~= vstd::multiset::Multiset::empty()) by {
            broadcast use vstd::seq_lib::group_to_multiset_ensures;

        }
        assert(values_of(ordered@).to_multiset() =~= given.to_multiset());
    }
    ordered
}

} // verus!
