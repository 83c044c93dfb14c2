use vstd::prelude::*;

verus! {

/// Appends `key` to `order` unless it is already listed.
pub open spec fn push_new(order: Seq<Seq<char>>, key: Seq<char>) -> Seq<Seq<char>> {
    if order.contains(key) {
        order
    } else {
        order.push(key)
    }
}

/// Appends the names of `more` that `order` does not list yet, each once, in the order in
/// which they first occur.
pub open spec fn append_new(order: Seq<Seq<char>>, more: Seq<Seq<char>>) -> Seq<Seq<char>>
    decreases more.len(),
{
    if more.len() == 0 {
        order
    } else {
        push_new(append_new(order, more.drop_last()), more.last())
    }
}

/// A value that can be folded: an empty value and an associative way to combine two values.
/// The empty value is neutral on the right, and neutral on the left for the values that
/// folding gives, which are called settled.
pub trait Summary: Sized {
    /// The summary of nothing.
    spec fn empty() -> Self;

    /// The summary of what `self` and `other` summarise, in this order.
    spec fn combine(self, other: Self) -> Self;

    /// Whether the value is one that folding can give.
    spec fn settled(self) -> bool;

    /// Combining is associative.
    proof fn lemma_combine_associative(a: Self, b: Self, c: Self)
        ensures
            a.combine(b).combine(c) == a.combine(b.combine(c)),
    ;

    /// Combining the empty value into a value changes nothing.
    proof fn lemma_combine_empty(a: Self)
        ensures
            a.combine(Self::empty()) == a,
    ;

    /// Combining a settled value into the empty value gives that value.
    proof fn lemma_empty_combine(a: Self)
        requires
            a.settled(),
        ensures
            Self::empty().combine(a) == a,
    ;

    /// The empty value is settled, and combining settled values gives a settled value.
    proof fn lemma_settled(a: Self, b: Self)
        ensures
            Self::empty().settled(),
            a.settled() && b.settled() ==> a.combine(b).settled(),
    ;
}

/// A mapping from names to summaries that remembers the order in which the names were first
/// seen.
#[verifier::ext_equal]
pub struct Keyed<V> {
    /// The names, in the order in which they were first seen.
    pub order: Seq<Seq<char>>,
    /// The summary of each name.
    pub items: Map<Seq<char>, V>,
}

impl<V: Summary> Keyed<V> {
    /// The mapping that knows no name.
    pub open spec fn empty() -> Self {
        Keyed { order: Seq::empty(), items: Map::empty() }
    }

    /// The names are listed once each, and they are exactly the names that have a summary.
    pub open spec fn wf(self) -> bool {
        &&& self.order.no_duplicates()
        &&& forall|k: Seq<char>| self.items.contains_key(k) <==> self.order.contains(k)
    }

    /// The mapping is well formed and all its summaries are settled.
    pub open spec fn settled(self) -> bool {
        &&& self.wf()
        &&& forall|k: Seq<char>|
            self.items.contains_key(k) ==> (#[trigger] self.items[k]).settled()
    }

    /// The summary of `key`; the empty summary where the name is unknown.
    pub open spec fn get(self, key: Seq<char>) -> V {
        if self.items.contains_key(key) {
            self.items[key]
        } else {
            V::empty()
        }
    }

    /// Sets the summary of `key`, listing the name last if it is new.
    pub open spec fn put(self, key: Seq<char>, value: V) -> Self {
        Keyed { order: push_new(self.order, key), items: self.items.insert(key, value) }
    }

    /// Combines `value` into the summary of `key`.
    pub open spec fn absorb(self, key: Seq<char>, value: V) -> Self {
        self.put(key, self.get(key).combine(value))
    }

    /// Combines the summaries of `other` into those of `self`, name by name. The names of
    /// `self` keep their places; the new names of `other` follow in their own order.
    pub open spec fn merge(self, other: Self) -> Self {
        Keyed {
            order: append_new(self.order, other.order),
            items: Map::new(
                |k: Seq<char>| self.items.contains_key(k) || other.items.contains_key(k),
                |k: Seq<char>| self.get(k).combine(other.get(k)),
            ),
        }
    }
}

/// The mapping that lists `keys` in order and gives the name at each place the value at the
/// same place.
pub open spec fn keyed_from<V>(keys: Seq<Seq<char>>, values: Seq<V>) -> Keyed<V> {
    Keyed {
        order: keys,
        items: Map::new(|k: Seq<char>| keys.contains(k), |k: Seq<char>| values[keys.index_of(k)]),
    }
}

/// After appending a name unless it is listed, the list holds what it held and that name.
pub proof fn lemma_push_new_contains(order: Seq<Seq<char>>, added: Seq<char>, key: Seq<char>)
    ensures
        push_new(order, added).contains(key) <==> order.contains(key) || key == added,
{
    if order.contains(added) {
    } else {
        let next = order.push(added);
        assert(next[order.len() as int] == added);
        if order.contains(key) {
            let i = choose|i: int| 0 <= i < order.len() && order[i] == key;
            assert(next[i] == key);
        }
        if next.contains(key) {
            let i = choose|i: int| 0 <= i < next.len() && next[i] == key;
            if i < order.len() {
                assert(order[i] == key);
            }
        }
    }
}

/// Appending a name unless it is listed keeps a list free of repetitions.
pub proof fn lemma_push_new_no_duplicates(order: Seq<Seq<char>>, added: Seq<char>)
    requires
        order.no_duplicates(),
    ensures
        push_new(order, added).no_duplicates(),
{
}

/// After appending new names, the list holds what either list held.
pub proof fn lemma_append_new_contains(order: Seq<Seq<char>>, more: Seq<Seq<char>>, key: Seq<char>)
    ensures
        append_new(order, more).contains(key) <==> order.contains(key) || more.contains(key),
    decreases more.len(),
{
    if more.len() > 0 {
        let rest = more.drop_last();
        lemma_append_new_contains(order, rest, key);
        lemma_push_new_contains(append_new(order, rest), more.last(), key);
        if rest.contains(key) {
            let i = choose|i: int| 0 <= i < rest.len() && rest[i] == key;
            assert(more[i] == key);
        }
        if more.contains(key) {
            let i = choose|i: int| 0 <= i < more.len() && more[i] == key;
            if i < rest.len() {
                assert(rest[i] == key);
            }
        }
    }
}

/// Appending new names keeps a list free of repetitions.
pub proof fn lemma_append_new_no_duplicates(order: Seq<Seq<char>>, more: Seq<Seq<char>>)
    requires
        order.no_duplicates(),
    ensures
        append_new(order, more).no_duplicates(),
    decreases more.len(),
{
    if more.len() > 0 {
        lemma_append_new_no_duplicates(order, more.drop_last());
        lemma_push_new_no_duplicates(append_new(order, more.drop_last()), more.last());
    }
}

/// Appending one more name after the others is the same as appending it to the result.
pub proof fn lemma_append_new_push_new(order: Seq<Seq<char>>, more: Seq<Seq<char>>, key: Seq<char>)
    ensures
        append_new(order, push_new(more, key)) == push_new(append_new(order, more), key),
{
    lemma_append_new_contains(order, more, key);
    if !more.contains(key) {
        assert(more.push(key).drop_last() =~= more);
    }
}

/// Appending new names is associative.
pub proof fn lemma_append_new_associative(
    a: Seq<Seq<char>>,
    b: Seq<Seq<char>>,
    c: Seq<Seq<char>>,
)
    ensures
        append_new(append_new(a, b), c) == append_new(a, append_new(b, c)),
    decreases c.len(),
{
    if c.len() > 0 {
        lemma_append_new_associative(a, b, c.drop_last());
        lemma_append_new_push_new(a, append_new(b, c.drop_last()), c.last());
    }
}

/// Appending the names of a list without repetitions to no names gives that list.
pub proof fn lemma_append_new_to_empty(order: Seq<Seq<char>>)
    requires
        order.no_duplicates(),
    ensures
        append_new(Seq::empty(), order) == order,
    decreases order.len(),
{
    if order.len() > 0 {
        let rest = order.drop_last();
        lemma_append_new_to_empty(rest);
        if rest.contains(order.last()) {
            let i = choose|i: int| 0 <= i < rest.len() && rest[i] == order.last();
            assert(order[i] == order[order.len() - 1]);
        }
        assert(rest.push(order.last()) =~= order);
    }
}

/// In a list without repetitions, a name is found at its own place.
pub proof fn lemma_index_of_unique(keys: Seq<Seq<char>>, i: int)
    requires
        keys.no_duplicates(),
        0 <= i < keys.len(),
    ensures
        keys.contains(keys[i]),
        keys.index_of(keys[i]) == i,
{
}

/// Listing a new name with its value at the end puts that value under the name.
pub proof fn lemma_keyed_from_push<V: Summary>(
    keys: Seq<Seq<char>>,
    values: Seq<V>,
    key: Seq<char>,
    value: V,
)
    requires
        keys.no_duplicates(),
        keys.len() == values.len(),
        !keys.contains(key),
    ensures
        keyed_from(keys.push(key), values.push(value)) == keyed_from(keys, values).put(key, value),
{
    let before = keyed_from(keys, values);
    let after = keyed_from(keys.push(key), values.push(value));
    let grown = keys.push(key);
    assert(grown.no_duplicates());
    lemma_push_new_contains(keys, key, key);
    assert forall|k: Seq<char>| after.items.contains_key(k) <==> before.put(
        key,
        value,
    ).items.contains_key(k) by {
        lemma_push_new_contains(keys, key, k);
    }
    assert forall|k: Seq<char>| after.items.contains_key(k) implies #[trigger] after.items[k]
        == before.put(key, value).items[k] by {
        let i = grown.index_of(k);
        if k == key {
            lemma_index_of_unique(grown, keys.len() as int);
        } else {
            lemma_push_new_contains(keys, key, k);
            let j = keys.index_of(k);
            assert(grown[j] == k);
        }
    }
    assert(after.items =~= before.put(key, value).items);
}

/// Replacing the value at one place replaces the value under the name at that place.
pub proof fn lemma_keyed_from_update<V: Summary>(
    keys: Seq<Seq<char>>,
    values: Seq<V>,
    i: int,
    value: V,
)
    requires
        keys.no_duplicates(),
        keys.len() == values.len(),
        0 <= i < keys.len(),
    ensures
        keyed_from(keys, values.update(i, value)) == keyed_from(keys, values).put(keys[i], value),
        keyed_from(keys, values).get(keys[i]) == values[i],
{
    let before = keyed_from(keys, values);
    let after = keyed_from(keys, values.update(i, value));
    lemma_index_of_unique(keys, i);
    assert forall|k: Seq<char>| after.items.contains_key(k) implies #[trigger] after.items[k]
        == before.put(keys[i], value).items[k] by {
        let j = keys.index_of(k);
        if j == i {
        } else {
            assert(keys[j] != keys[i]);
        }
    }
    assert(after.items =~= before.put(keys[i], value).items);
}

/// Setting a summary keeps a mapping well formed.
pub proof fn lemma_put_wf<V: Summary>(a: Keyed<V>, key: Seq<char>, value: V)
    requires
        a.wf(),
    ensures
        a.put(key, value).wf(),
{
    lemma_push_new_no_duplicates(a.order, key);
    assert forall|k: Seq<char>|
        a.put(key, value).items.contains_key(k) <==> a.put(key, value).order.contains(k) by {
        lemma_push_new_contains(a.order, key, k);
    }
}

/// Merging two well-formed mappings gives a well-formed mapping.
pub proof fn lemma_merge_wf<V: Summary>(a: Keyed<V>, b: Keyed<V>)
    requires
        a.wf(),
        b.wf(),
    ensures
        a.merge(b).wf(),
{
    lemma_append_new_no_duplicates(a.order, b.order);
    assert forall|k: Seq<char>|
        a.merge(b).items.contains_key(k) <==> a.merge(b).order.contains(k) by {
        lemma_append_new_contains(a.order, b.order, k);
    }
}

/// Merging is associative: however three partial results are grouped, the merged result is
/// the same, in its summaries and in the order of its names.
pub proof fn lemma_merge_associative<V: Summary>(a: Keyed<V>, b: Keyed<V>, c: Keyed<V>)
    ensures
        a.merge(b).merge(c) == a.merge(b.merge(c)),
{
    let left = a.merge(b).merge(c);
    let right = a.merge(b.merge(c));
    assert forall|k: Seq<char>| left.items.contains_key(k) implies #[trigger] left.items[k]
        == right.items[k] by {
        V::lemma_combine_associative(a.get(k), b.get(k), c.get(k));
        V::lemma_combine_empty(V::empty());
    }
    assert(left.items =~= right.items);
    lemma_append_new_associative(a.order, b.order, c.order);
}

/// Merging with a mapping that holds nothing changes nothing.
pub proof fn lemma_merge_empty<V: Summary>(a: Keyed<V>)
    ensures
        a.merge(Keyed::empty()) == a,
{
    let merged = a.merge(Keyed::<V>::empty());
    assert forall|k: Seq<char>| merged.items.contains_key(k) implies #[trigger] merged.items[k]
        == a.items[k] by {
        V::lemma_combine_empty(a.get(k));
    }
    assert(merged.items =~= a.items);
}

/// Putting a value under a new name in the right operand of a merge is the same as combining
/// it into the merged result.
pub proof fn lemma_merge_put_new<V: Summary>(a: Keyed<V>, b: Keyed<V>, key: Seq<char>, value: V)
    requires
        !b.items.contains_key(key),
    ensures
        a.merge(b.put(key, value)) == a.merge(b).absorb(key, value),
{
    let left = a.merge(b.put(key, value));
    let right = a.merge(b).absorb(key, value);
    assert forall|k: Seq<char>| left.items.contains_key(k) implies #[trigger] left.items[k]
        == right.items[k] by {
        if k == key {
            V::lemma_combine_empty(a.get(k));
        }
    }
    assert(left.items =~= right.items);
    lemma_append_new_push_new(a.order, b.order, key);
}

/// Combining one more value into the right operand of a merge is the same as combining it
/// into the merged result.
pub proof fn lemma_merge_absorb<V: Summary>(a: Keyed<V>, b: Keyed<V>, key: Seq<char>, value: V)
    ensures
        a.merge(b.absorb(key, value)) == a.merge(b).absorb(key, value),
{
    let left = a.merge(b.absorb(key, value));
    let right = a.merge(b).absorb(key, value);
    assert forall|k: Seq<char>| left.items.contains_key(k) implies #[trigger] left.items[k]
        == right.items[k] by {
        if k == key {
            V::lemma_combine_associative(a.get(k), b.get(k), value);
            V::lemma_combine_empty(V::empty());
        }
    }
    assert(left.items =~= right.items);
    lemma_append_new_push_new(a.order, b.order, key);
}

/// Setting a settled summary keeps a mapping settled.
pub proof fn lemma_put_settled<V: Summary>(a: Keyed<V>, key: Seq<char>, value: V)
    requires
        a.settled(),
        value.settled(),
    ensures
        a.put(key, value).settled(),
{
    lemma_put_wf(a, key, value);
}

/// Merging two settled mappings gives a settled mapping.
pub proof fn lemma_merge_settled<V: Summary>(a: Keyed<V>, b: Keyed<V>)
    requires
        a.settled(),
        b.settled(),
    ensures
        a.merge(b).settled(),
{
    lemma_merge_wf(a, b);
    assert forall|k: Seq<char>| a.merge(b).items.contains_key(k) implies (#[trigger] a.merge(
        b,
    ).items[k]).settled() by {
        V::lemma_settled(a.get(k), b.get(k));
    }
}

/// Merging a settled mapping into one that holds nothing gives that mapping.
pub proof fn lemma_empty_merge<V: Summary>(b: Keyed<V>)
    requires
        b.settled(),
    ensures
        Keyed::<V>::empty().merge(b) == b,
{
    let merged = Keyed::<V>::empty().merge(b);
    assert forall|k: Seq<char>| merged.items.contains_key(k) implies #[trigger] merged.items[k]
        == b.items[k] by {
        V::lemma_empty_combine(b.items[k]);
    }
    assert(merged.items =~= b.items);
    lemma_append_new_to_empty(b.order);
}

/// A name that only one of two mappings knows keeps its summary when they are merged.
pub proof fn lemma_merge_keeps_single<V: Summary>(a: Keyed<V>, b: Keyed<V>, key: Seq<char>)
    requires
        b.settled(),
    ensures
        a.items.contains_key(key) && !b.items.contains_key(key) ==> a.merge(b).items[key]
            == a.items[key],
        !a.items.contains_key(key) && b.items.contains_key(key) ==> a.merge(b).items[key]
            == b.items[key],
{
    V::lemma_combine_empty(a.get(key));
    if b.items.contains_key(key) {
        V::lemma_empty_combine(b.items[key]);
    }
}

} // verus!
