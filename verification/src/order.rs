//! Putting things in the order of their keys.

use vstd::prelude::*;
use vstd::seq_lib::lemma_multiset_commutative;

verus! {

/// A key by which things are put in order.
pub trait Key: View {
    /// Whether a key with the view `a` comes no later than one with the view
    /// `b`.
    spec fn no_later(a: Self::V, b: Self::V) -> bool;

    /// Of two keys one comes no later than the other, and a key that comes
    /// no later than a second, which comes no later than a third, comes no
    /// later than the third.
    proof fn lemma_keys_are_ordered(a: Self::V, b: Self::V, c: Self::V)
        ensures
            Self::no_later(a, b) || Self::no_later(b, a),
            Self::no_later(a, b) && Self::no_later(b, c) ==> Self::no_later(a, c),
    ;

    /// Whether this key comes no later than `other`.
    fn is_no_later(&self, other: &Self) -> (holds: bool)
        ensures
            holds == Self::no_later(self@, other@),
    ;
}

impl Key for i16 {
    open spec fn no_later(a: i16, b: i16) -> bool {
        a <= b
    }

    proof fn lemma_keys_are_ordered(a: i16, b: i16, c: i16) {
    }

    fn is_no_later(&self, other: &i16) -> (holds: bool) {
        *self <= *other
    }
}

/// The views of `items`, in order.
pub open spec fn views<I: View>(items: Seq<I>) -> Seq<I::V> {
    items.map_values(|c: I| c@)
}

/// Whether `items` are in the order of their keys: none comes later than
/// one that stands behind it.
pub open spec fn in_order<V, K: Key>(items: Seq<V>, key: spec_fn(V) -> K::V) -> bool {
    forall|a: int, b: int| 0 <= a < b < items.len() ==> K::no_later(key(items[a]), key(items[b]))
}

/// Whether `items` are in the order of their keys backwards: none comes
/// later than one that stands before it.
spec fn in_falling_order<V, K: Key>(items: Seq<V>, key: spec_fn(V) -> K::V) -> bool {
    forall|a: int, b: int| 0 <= a < b < items.len() ==> K::no_later(key(items[b]), key(items[a]))
}

/// Whether none of `low` comes later than any of `high`.
spec fn all_no_later<V, K: Key>(low: Seq<V>, high: Seq<V>, key: spec_fn(V) -> K::V) -> bool {
    forall|a: int, b: int|
        0 <= a < low.len() && 0 <= b < high.len() ==> K::no_later(key(low[a]), key(high[b]))
}

/// Whether `keys` are the keys of `items`, one for one.
spec fn keyed<I: View, K: Key>(items: Seq<I>, keys: Seq<K>, key: spec_fn(I::V) -> K::V) -> bool {
    &&& items.len() == keys.len()
    &&& forall|j: int| 0 <= j < items.len() ==> (#[trigger] keys[j])@ == key(items[j]@)
}

/// Moves the last of `from`, and its key, to the end of `to`.
fn move_last<I: View, K: Key>(
    from: &mut Vec<I>,
    from_keys: &mut Vec<K>,
    to: &mut Vec<I>,
    to_keys: &mut Vec<K>,
    Ghost(key): Ghost<spec_fn(I::V) -> K::V>,
)
    requires
        old(from)@.len() > 0,
        keyed(old(from)@, old(from_keys)@, key),
        keyed(old(to)@, old(to_keys)@, key),
    ensures
        keyed(final(from)@, final(from_keys)@, key),
        keyed(final(to)@, final(to_keys)@, key),
        views(final(from)@) == views(old(from)@).drop_last(),
        views(final(to)@) == views(old(to)@).push(views(old(from)@).last()),
        final(from)@.len() == old(from)@.len() - 1,
        final(to)@.len() == old(to)@.len() + 1,
{
    let item = from.pop().unwrap();
    let item_key = from_keys.pop().unwrap();
    to.push(item);
    to_keys.push(item_key);
}

/// The items of `left` and of `right`, each of which are in order, in one
/// order. Where the items of `left` followed by those of `right` are in
/// order already, they stay as they stand.
fn merge<I: View, K: Key>(
    left: Vec<I>,
    left_keys: Vec<K>,
    right: Vec<I>,
    right_keys: Vec<K>,
    Ghost(key): Ghost<spec_fn(I::V) -> K::V>,
) -> (merged: (Vec<I>, Vec<K>))
    requires
        keyed(left@, left_keys@, key),
        keyed(right@, right_keys@, key),
        in_order::<I::V, K>(views(left@), key),
        in_order::<I::V, K>(views(right@), key),
    ensures
        keyed(merged.0@, merged.1@, key),
        views(merged.0@).to_multiset() == views(left@).to_multiset().add(
            views(right@).to_multiset(),
        ),
        in_order::<I::V, K>(views(merged.0@), key),
        in_order::<I::V, K>(views(left@) + views(right@), key) ==> views(merged.0@) == views(left@)
            + views(right@),
{
    let ghost first = views(left@);
    let ghost second = views(right@);
    let ghost both = first + second;
    let mut left = left;
    let mut left_keys = left_keys;
    let mut right = right;
    let mut right_keys = right_keys;
    let mut falling: Vec<I> = Vec::new();
    let mut falling_keys: Vec<K> = Vec::new();
    proof {
        broadcast use vstd::seq_lib::group_to_multiset_ensures;
    }
    while left.len() > 0 || right.len() > 0
        invariant
            both == first + second,
            keyed(left@, left_keys@, key),
            keyed(right@, right_keys@, key),
            keyed(falling@, falling_keys@, key),
            left@.len() <= first.len(),
            right@.len() <= second.len(),
            views(left@) == first.take(left@.len() as int),
            views(right@) == second.take(right@.len() as int),
            in_order::<I::V, K>(first, key),
            in_order::<I::V, K>(second, key),
            views(left@).to_multiset().add(views(right@).to_multiset()).add(
                views(falling@).to_multiset(),
            ) == first.to_multiset().add(second.to_multiset()),
            in_falling_order::<I::V, K>(views(falling@), key),
            all_no_later::<I::V, K>(views(left@), views(falling@), key),
            all_no_later::<I::V, K>(views(right@), views(falling@), key),
            in_order::<I::V, K>(both, key) ==> {
                &&& right@.len() > 0 ==> left@.len() == first.len()
                &&& views(falling@).reverse() == both.skip((left@.len() + right@.len()) as int)
            },
        decreases left@.len() + right@.len(),
    {
        let from_right = if right.len() == 0 {
            false
        } else if left.len() == 0 {
            true
        } else {
            left_keys[left.len() - 1].is_no_later(&right_keys[right.len() - 1])
        };
        let ghost left_before = views(left@);
        let ghost right_before = views(right@);
        let ghost falling_before = views(falling@);
        if from_right {
            move_last(&mut right, &mut right_keys, &mut falling, &mut falling_keys, Ghost(key));
        } else {
            move_last(&mut left, &mut left_keys, &mut falling, &mut falling_keys, Ghost(key));
        }
        proof {
            broadcast use vstd::seq_lib::group_to_multiset_ensures;

            let source = if from_right {
                right_before
            } else {
                left_before
            };
            let other = if from_right {
                left_before
            } else {
                right_before
            };
            let moved = source.last();
            let rest = source.drop_last();
            assert(source =~= rest.push(moved));
            // nothing that is left comes later than what was moved
            assert forall|a: int| 0 <= a < other.len() implies K::no_later(
                key(#[trigger] other[a]),
                key(moved),
            ) by {
                let last = other.last();
                K::lemma_keys_are_ordered(key(last), key(moved), key(last));
                K::lemma_keys_are_ordered(key(other[a]), key(last), key(moved));
            }
            if in_order::<I::V, K>(both, key) {
                let at = (left@.len() + right@.len()) as int;
                if !from_right && right_before.len() > 0 {
                    // the last of the left ones stands before the last of the right ones
                    let a = left_before.len() - 1;
                    let b = first.len() + right_before.len() - 1;
                    assert(both[b] == right_before.last());
                    assert(K::no_later(key(both[a]), key(both[b])));
                }
                assert(views(falling@).reverse() =~= both.skip(at)) by {
                    assert forall|j: int| 0 <= j < views(falling@).len() implies views(
                        falling@,
                    ).reverse()[j] == both.skip(at)[j] by {
                        if j > 0 {
                            assert(falling_before.reverse()[j - 1] == both.skip(at + 1)[j - 1]);
                        }
                    }
                }
            }
        }
    }
    let ghost fallen = views(falling@);
    let mut merged: Vec<I> = Vec::new();
    let mut merged_keys: Vec<K> = Vec::new();
    while falling.len() > 0
        invariant
            keyed(falling@, falling_keys@, key),
            keyed(merged@, merged_keys@, key),
            falling@.len() + merged@.len() == fallen.len(),
            views(falling@) == fallen.take(falling@.len() as int),
            views(merged@) == fallen.reverse().take(merged@.len() as int),
        decreases falling@.len(),
    {
        move_last(&mut falling, &mut falling_keys, &mut merged, &mut merged_keys, Ghost(key));
    }
    proof {
        assert(views(merged@) =~= fallen.reverse());
        fallen.lemma_reverse_to_multiset();
    }
    (merged, merged_keys)
}

/// `items` and their keys, in the order of the keys.
fn sorted<I: View, K: Key>(items: Vec<I>, keys: Vec<K>, Ghost(key): Ghost<spec_fn(I::V) -> K::V>) -> (sorted:
    (Vec<I>, Vec<K>))
    requires
        keyed(items@, keys@, key),
    ensures
        keyed(sorted.0@, sorted.1@, key),
        views(sorted.0@).to_multiset() == views(items@).to_multiset(),
        in_order::<I::V, K>(views(sorted.0@), key),
        in_order::<I::V, K>(views(items@), key) ==> views(sorted.0@) == views(items@),
    decreases items@.len(),
{
    if items.len() <= 1 {
        return (items, keys);
    }
    let ghost all = views(items@);
    let mut left = items;
    let mut left_keys = keys;
    let half = left.len() / 2;
    let right = left.split_off(half);
    let right_keys = left_keys.split_off(half);
    proof {
        assert(all =~= views(left@) + views(right@));
        lemma_multiset_commutative(views(left@), views(right@));
        if in_order::<I::V, K>(all, key) {
            assert forall|a: int, b: int| 0 <= a < b < views(left@).len() implies K::no_later(
                key(views(left@)[a]),
                key(views(left@)[b]),
            ) by {
                assert(views(left@)[a] == all[a] && views(left@)[b] == all[b]);
            }
            assert forall|a: int, b: int| 0 <= a < b < views(right@).len() implies K::no_later(
                key(views(right@)[a]),
                key(views(right@)[b]),
            ) by {
                assert(views(right@)[a] == all[half + a] && views(right@)[b] == all[half + b]);
            }
        }
    }
    let (left, left_keys) = sorted(left, left_keys, Ghost(key));
    let (right, right_keys) = sorted(right, right_keys, Ghost(key));
    merge(left, left_keys, right, right_keys, Ghost(key))
}

/// Brings `items` into the order of their keys. Items that are in order
/// already stay as they stand.
pub(crate) fn arrange<I: View, K: Key>(
    items: Vec<I>,
    keys: Vec<K>,
    Ghost(key): Ghost<spec_fn(I::V) -> K::V>,
) -> (arranged: Vec<I>)
    requires
        items@.len() == keys@.len(),
        forall|j: int| 0 <= j < items@.len() ==> (#[trigger] keys@[j])@ == key(items@[j]@),
    ensures
        views(arranged@).to_multiset() == views(items@).to_multiset(),
        in_order::<I::V, K>(views(arranged@), key),
        in_order::<I::V, K>(views(items@), key) ==> views(arranged@) == views(items@),
{
    sorted(items, keys, Ghost(key)).0
}

} // verus!
