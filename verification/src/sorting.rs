//! Stable sorting of items by a text key.

use crate::text::{
    comes_before, lemma_bytes_antisymmetric, lemma_bytes_total, lemma_bytes_transitive,
    lemma_order_is_lexicographic, lemma_utf8_injective, text_at_most, text_le,
};
use vstd::prelude::*;
use vstd::utf8::*;

verus! {

/// An item with a text to sort it by.
pub trait Keyed: Sized {
    /// The text to sort by.
    spec fn sort_key(&self) -> Seq<char>;

    /// The text to sort by.
    fn sort_text(&self) -> (text: &str)
        ensures
            text@ == self.sort_key(),
    ;
}

/// No item comes before one with a smaller key.
pub open spec fn ascending<T: Keyed>(items: Seq<T>) -> bool {
    forall|i: int, j: int| #![trigger items[i], items[j]]
        0 <= i < j < items.len() ==> text_at_most(items[i].sort_key(), items[j].sort_key())
}

/// The items with a given key, in their order.
pub open spec fn with_key<T: Keyed>(items: Seq<T>, key: Seq<char>) -> Seq<T>
    decreases items.len(),
{
    if items.len() == 0 {
        Seq::empty()
    } else if items[0].sort_key() == key {
        seq![items[0]] + with_key(items.drop_first(), key)
    } else {
        with_key(items.drop_first(), key)
    }
}

/// `sorted` holds the items of `items` in ascending order, and those with the
/// same key in the order in which they stand in `items`.
pub open spec fn stably_sorted<T: Keyed>(items: Seq<T>, sorted: Seq<T>) -> bool {
    &&& ascending(sorted)
    &&& sorted.len() == items.len()
    &&& forall|key: Seq<char>| #[trigger] with_key(sorted, key) == with_key(items, key)
}

/// The items with a key in a concatenation.
pub proof fn lemma_with_key_concat<T: Keyed>(a: Seq<T>, b: Seq<T>, key: Seq<char>)
    ensures
        with_key(a + b, key) == with_key(a, key) + with_key(b, key),
    decreases a.len(),
{
    if a.len() == 0 {
        assert(a + b =~= b);
        assert(with_key(a, key) + with_key(b, key) =~= with_key(b, key));
    } else {
        assert((a + b).drop_first() =~= a.drop_first() + b);
        lemma_with_key_concat(a.drop_first(), b, key);
        assert(with_key(a + b, key) =~= with_key(a, key) + with_key(b, key));
    }
}

/// Where no item has the key, there are no items with the key.
proof fn lemma_with_key_none<T: Keyed>(items: Seq<T>, key: Seq<char>)
    requires
        forall|i: int| #![trigger items[i]] 0 <= i < items.len() ==> items[i].sort_key() != key,
    ensures
        with_key(items, key) == Seq::<T>::empty(),
    decreases items.len(),
{
    if items.len() > 0 {
        let rest = items.drop_first();
        assert forall|i: int| #![trigger rest[i]] 0 <= i < rest.len() implies rest[i].sort_key()
            != key by {
            assert(rest[i] == items[i + 1]);
        }
        lemma_with_key_none(rest, key);
    }
}

/// An item is among those with its own key, and an item among those with a
/// key has that key and is one of the items.
pub proof fn lemma_with_key_contains<T: Keyed>(items: Seq<T>, key: Seq<char>, item: T)
    ensures
        with_key(items, key).contains(item) == (items.contains(item) && item.sort_key() == key),
    decreases items.len(),
{
    if items.len() > 0 {
        let rest = items.drop_first();
        lemma_with_key_contains(rest, key, item);
        assert(items =~= seq![items[0]] + rest);
        let found = with_key(items, key);
        let later = with_key(rest, key);
        if items[0].sort_key() == key {
            assert(found == seq![items[0]] + later);
            if later.contains(item) {
                let i = choose|i: int| 0 <= i < later.len() && later[i] == item;
                assert(found[i + 1] == item);
            }
            if item == items[0] {
                assert(found[0] == item);
            }
            if found.contains(item) && item != items[0] {
                let i = choose|i: int| 0 <= i < found.len() && found[i] == item;
                assert(later[i - 1] == item);
            }
        }
        if rest.contains(item) {
            let i = choose|i: int| 0 <= i < rest.len() && rest[i] == item;
            assert(items[i + 1] == item);
        }
        if items.contains(item) && item != items[0] {
            let i = choose|i: int| 0 <= i < items.len() && items[i] == item;
            assert(rest[i - 1] == item);
        }
    }
}

/// Sorting keeps the items: the sorted list holds those that were there, and
/// no others.
pub proof fn lemma_sorted_contains<T: Keyed>(items: Seq<T>, sorted: Seq<T>, item: T)
    requires
        stably_sorted(items, sorted),
    ensures
        sorted.contains(item) == items.contains(item),
{
    lemma_with_key_contains(items, item.sort_key(), item);
    lemma_with_key_contains(sorted, item.sort_key(), item);
    assert(with_key(sorted, item.sort_key()) == with_key(items, item.sort_key()));
}

/// Two items with the key are two of the items with the key.
proof fn lemma_with_key_two<T: Keyed>(items: Seq<T>, key: Seq<char>, i: int, j: int)
    requires
        0 <= i < j < items.len(),
        items[i].sort_key() == key,
        items[j].sort_key() == key,
    ensures
        with_key(items, key).len() >= 2,
{
    let a = items.take(j);
    let b = items.skip(j);
    assert(items =~= a + b);
    lemma_with_key_concat(a, b, key);
    assert(a[i] == items[i] && b[0] == items[j]);
    assert(a.contains(items[i]) && b.contains(items[j]));
    lemma_with_key_contains(a, key, items[i]);
    lemma_with_key_contains(b, key, items[j]);
}

/// At most one item with the key where no two have the same.
proof fn lemma_with_key_one<T: Keyed>(items: Seq<T>, key: Seq<char>)
    requires
        distinct_keys(items),
    ensures
        with_key(items, key).len() <= 1,
    decreases items.len(),
{
    if items.len() > 0 {
        let rest = items.drop_first();
        assert forall|i: int, j: int| #![trigger rest[i], rest[j]]
            0 <= i < j < rest.len() implies rest[i].sort_key() != rest[j].sort_key() by {
            assert(rest[i] == items[i + 1] && rest[j] == items[j + 1]);
        }
        lemma_with_key_one(rest, key);
        if items[0].sort_key() == key {
            assert forall|i: int| #![trigger rest[i]] 0 <= i < rest.len() implies rest[i].sort_key()
                != key by {
                assert(rest[i] == items[i + 1]);
            }
            lemma_with_key_none(rest, key);
        }
    }
}

/// No two items have the same key.
pub open spec fn distinct_keys<T: Keyed>(items: Seq<T>) -> bool {
    forall|i: int, j: int| #![trigger items[i], items[j]]
        0 <= i < j < items.len() ==> items[i].sort_key() != items[j].sort_key()
}

/// Distinct keys stay distinct.
pub proof fn lemma_sorted_distinct<T: Keyed>(items: Seq<T>, sorted: Seq<T>)
    requires
        stably_sorted(items, sorted),
        distinct_keys(items),
    ensures
        distinct_keys(sorted),
{
    assert forall|i: int, j: int| #![trigger sorted[i], sorted[j]]
        0 <= i < j < sorted.len() implies sorted[i].sort_key() != sorted[j].sort_key() by {
        if sorted[i].sort_key() == sorted[j].sort_key() {
            let key = sorted[i].sort_key();
            lemma_with_key_two(sorted, key, i, j);
            lemma_with_key_one(items, key);
            assert(with_key(sorted, key) == with_key(items, key));
        }
    }
}

/// The first place in an ascending list whose key is not below `key`.
fn place_of<T: Keyed>(items: &Vec<T>, key: &str) -> (at: usize)
    requires
        ascending(items@),
    ensures
        at <= items.len(),
        forall|i: int| #![trigger items@[i]]
            0 <= i < at ==> !text_at_most(key@, items@[i].sort_key()),
        forall|i: int| #![trigger items@[i]]
            at <= i < items.len() ==> text_at_most(key@, items@[i].sort_key()),
{
    let mut lo: usize = 0;
    let mut hi: usize = items.len();
    while lo < hi
        invariant
            lo <= hi <= items.len(),
            ascending(items@),
            forall|i: int| #![trigger items@[i]]
                0 <= i < lo ==> !text_at_most(key@, items@[i].sort_key()),
            forall|i: int| #![trigger items@[i]]
                hi <= i < items.len() ==> text_at_most(key@, items@[i].sort_key()),
        decreases hi - lo,
    {
        let mid: usize = lo + (hi - lo) / 2;
        let ghost middle = items@[mid as int].sort_key();
        if text_le(key, items[mid].sort_text()) {
            assert forall|i: int| #![trigger items@[i]] mid <= i < items.len() implies text_at_most(
                key@,
                items@[i].sort_key(),
            ) by {
                if i > mid {
                    assert(text_at_most(items@[mid as int].sort_key(), items@[i].sort_key()));
                    lemma_bytes_transitive(
                        encode_utf8(key@),
                        encode_utf8(middle),
                        encode_utf8(items@[i].sort_key()),
                    );
                }
            }
            hi = mid;
        } else {
            assert forall|i: int| #![trigger items@[i]] 0 <= i <= mid implies !text_at_most(
                key@,
                items@[i].sort_key(),
            ) by {
                if i < mid && text_at_most(key@, items@[i].sort_key()) {
                    assert(text_at_most(items@[i].sort_key(), items@[mid as int].sort_key()));
                    lemma_bytes_transitive(
                        encode_utf8(key@),
                        encode_utf8(items@[i].sort_key()),
                        encode_utf8(middle),
                    );
                }
            }
            lo = mid + 1;
        }
    }
    lo
}

/// Sorts items by their keys. Items with the same key keep their order.
pub fn sort_by_text<T: Keyed>(items: Vec<T>) -> (sorted: Vec<T>)
    ensures
        stably_sorted(items@, sorted@),
{
    let mut rest = items;
    let ghost all = rest@;
    let mut sorted: Vec<T> = Vec::new();
    assert forall|key: Seq<char>| #[trigger] with_key(all, key) == with_key(rest@, key) + with_key(
        sorted@,
        key,
    ) by {
        assert(with_key(rest@, key) + with_key(sorted@, key) =~= with_key(rest@, key));
    }
    while rest.len() > 0
        invariant
            ascending(sorted@),
            sorted@.len() + rest@.len() == all.len(),
            forall|key: Seq<char>| #[trigger]
                with_key(all, key) == with_key(rest@, key) + with_key(sorted@, key),
        decreases rest@.len(),
    {
        let ghost popped = rest@;
        let last: usize = rest.len() - 1;
        let item = rest.remove(last);
        let ghost before = sorted@;
        let ghost item_key = item.sort_key();
        let at = place_of(&sorted, item.sort_text());
        sorted.insert(at, item);
        let ghost a = before.take(at as int);
        let ghost b = before.skip(at as int);
        proof {
            assert(before =~= a + b);
            assert(sorted@ =~= a + (seq![item] + b));
            assert forall|i: int| #![trigger a[i]] 0 <= i < a.len() implies !text_at_most(
                item_key,
                a[i].sort_key(),
            ) by {
                assert(a[i] == before[i]);
            }
            lemma_insert_ascending(a, item, b, before);
            assert forall|key: Seq<char>| #[trigger]
                with_key(all, key) == with_key(rest@, key) + with_key(sorted@, key) by {
                let one = seq![item];
                assert(popped =~= rest@ + one);
                lemma_with_key_concat(rest@, one, key);
                lemma_with_key_concat(a, b, key);
                lemma_with_key_concat(a, one + b, key);
                lemma_with_key_concat(one, b, key);
                if key == item_key {
                    assert forall|i: int| #![trigger a[i]] 0 <= i < a.len() implies a[i].sort_key()
                        != key by {
                        lemma_bytes_total(encode_utf8(key), encode_utf8(key));
                    }
                    lemma_with_key_none(a, key);
                } else {
                    lemma_with_key_none(one, key);
                }
                assert(with_key(rest@, key) + with_key(sorted@, key) =~= with_key(popped, key)
                    + with_key(before, key));
            }
        }
    }
    proof {
        assert(rest@ =~= Seq::<T>::empty());
        assert forall|key: Seq<char>| #[trigger] with_key(sorted@, key) == with_key(all, key) by {
            assert(with_key(all, key) =~= with_key(sorted@, key));
        }
    }
    sorted
}

proof fn lemma_insert_ascending<T: Keyed>(a: Seq<T>, item: T, b: Seq<T>, all: Seq<T>)
    requires
        all == a + b,
        ascending(all),
        forall|i: int| #![trigger a[i]]
            0 <= i < a.len() ==> !text_at_most(item.sort_key(), a[i].sort_key()),
        forall|i: int| #![trigger all[i]]
            a.len() <= i < all.len() ==> text_at_most(item.sort_key(), all[i].sort_key()),
    ensures
        ascending(a + (seq![item] + b)),
{
    let out = a + (seq![item] + b);
    let n = a.len() as int;
    assert forall|i: int, j: int| #![trigger out[i], out[j]]
        0 <= i < j < out.len() implies text_at_most(out[i].sort_key(), out[j].sort_key()) by {
        let p = if i < n {
            i
        } else {
            i - 1
        };
        let q = if j < n {
            j
        } else {
            j - 1
        };
        if i != n {
            assert(out[i] == all[p]);
        }
        if j != n {
            assert(out[j] == all[q]);
        }
        if j == n {
            assert(a[i] == out[i]);
            lemma_bytes_total(encode_utf8(item.sort_key()), encode_utf8(a[i].sort_key()));
        }
    }
}

/// The first of the items is the first with its key.
proof fn lemma_first_with_key<T: Keyed>(items: Seq<T>)
    requires
        items.len() > 0,
    ensures
        with_key(items, items[0].sort_key()).len() > 0,
        with_key(items, items[0].sort_key())[0] == items[0],
{
}

proof fn lemma_same_groups<T: Keyed>(a: Seq<T>, b: Seq<T>)
    requires
        ascending(a),
        ascending(b),
        a.len() == b.len(),
        forall|key: Seq<char>| #[trigger] with_key(a, key) == with_key(b, key),
    ensures
        a == b,
    decreases a.len(),
{
    if a.len() == 0 {
        assert(a =~= b);
    } else {
        let x = a[0].sort_key();
        let y = b[0].sort_key();
        lemma_first_with_key(a);
        lemma_first_with_key(b);
        assert(with_key(a, x) == with_key(b, x));
        assert(with_key(a, y) == with_key(b, y));
        lemma_with_key_contains(b, x, a[0]);
        lemma_with_key_contains(a, y, b[0]);
        assert(with_key(a, x).contains(a[0]));
        assert(with_key(b, y).contains(b[0]));
        let i = choose|i: int| 0 <= i < b.len() && b[i] == a[0];
        let j = choose|j: int| 0 <= j < a.len() && a[j] == b[0];
        lemma_bytes_total(encode_utf8(x), encode_utf8(x));
        assert(text_at_most(y, x)) by {
            if i > 0 {
                assert(text_at_most(b[0].sort_key(), b[i].sort_key()));
            }
        }
        assert(text_at_most(x, y)) by {
            if j > 0 {
                assert(text_at_most(a[0].sort_key(), a[j].sort_key()));
            }
        }
        lemma_bytes_antisymmetric(encode_utf8(x), encode_utf8(y));
        lemma_utf8_injective(x, y);
        assert(a[0] == b[0]);
        let c = a.drop_first();
        let d = b.drop_first();
        assert forall|m: int, n: int| #![trigger c[m], c[n]] 0 <= m < n < c.len() implies text_at_most(
            c[m].sort_key(),
            c[n].sort_key(),
        ) by {
            assert(c[m] == a[m + 1] && c[n] == a[n + 1]);
        }
        assert forall|m: int, n: int| #![trigger d[m], d[n]] 0 <= m < n < d.len() implies text_at_most(
            d[m].sort_key(),
            d[n].sort_key(),
        ) by {
            assert(d[m] == b[m + 1] && d[n] == b[n + 1]);
        }
        assert forall|key: Seq<char>| #[trigger] with_key(c, key) == with_key(d, key) by {
            assert(with_key(a, key) == with_key(b, key));
            if key == x {
                let one = seq![a[0]];
                assert(with_key(c, key) =~= (one + with_key(c, key)).skip(1));
                assert(with_key(d, key) =~= (one + with_key(d, key)).skip(1));
            }
        }
        lemma_same_groups(c, d);
        assert(a =~= seq![a[0]] + c);
        assert(b =~= seq![b[0]] + d);
    }
}

/// Sorting leaves no choice: there is one way to sort items so that those with
/// the same key keep their order.
pub proof fn law_sorting_is_determined<T: Keyed>(items: Seq<T>, a: Seq<T>, b: Seq<T>)
    requires
        stably_sorted(items, a),
        stably_sorted(items, b),
    ensures
        a == b,
{
    assert forall|key: Seq<char>| #[trigger] with_key(a, key) == with_key(b, key) by {
        assert(with_key(a, key) == with_key(items, key));
        assert(with_key(b, key) == with_key(items, key));
    }
    lemma_same_groups(a, b);
}

/// No item stands before one whose key comes before its own, byte by byte.
proof fn lemma_ascending_is_ordered<T: Keyed>(items: Seq<T>)
    requires
        ascending(items),
    ensures
        forall|i: int, j: int| #![trigger items[i], items[j]]
            0 <= i < j < items.len() ==> !comes_before(
                encode_utf8(items[j].sort_key()),
                encode_utf8(items[i].sort_key()),
            ),
{
    assert forall|i: int, j: int| #![trigger items[i], items[j]]
        0 <= i < j < items.len() implies !comes_before(
        encode_utf8(items[j].sort_key()),
        encode_utf8(items[i].sort_key()),
    ) by {
        lemma_order_is_lexicographic(
            encode_utf8(items[i].sort_key()),
            encode_utf8(items[j].sort_key()),
        );
    }
}

proof fn lemma_with_key_filters<T: Keyed>(items: Seq<T>, key: Seq<char>)
    ensures
        with_key(items, key) == items.filter(|x: T| x.sort_key() == key),
    decreases items.len(),
{
    reveal(Seq::filter);
    let keyed = |x: T| x.sort_key() == key;
    if items.len() == 0 {
        assert(with_key(items, key) =~= items.filter(keyed));
    } else {
        let front = items.drop_last();
        lemma_with_key_filters(front, key);
        let last = seq![items.last()];
        assert(items =~= front + last);
        lemma_with_key_concat(front, last, key);
        assert(last.drop_first() =~= Seq::<T>::empty());
        assert(with_key(last.drop_first(), key) =~= Seq::<T>::empty());
        if items.last().sort_key() == key {
            assert(with_key(last, key) =~= last);
            assert(items.filter(keyed) =~= front.filter(keyed).push(items.last()));
        } else {
            assert(with_key(last, key) =~= Seq::<T>::empty());
        }
        assert(with_key(items, key) =~= items.filter(keyed));
    }
}

/// Sorting keeps all items and adds none, puts smaller keys before greater ones,
/// byte by byte, and leaves those with the same key in their order.
pub proof fn law_sorting<T: Keyed>(items: Vec<T>, sorted: Vec<T>, key: Seq<char>)
    requires
        call_ensures(sort_by_text::<T>, (items,), sorted),
    ensures
        sorted@.len() == items@.len(),
        forall|item: T| #[trigger] sorted@.contains(item) == items@.contains(item),
        forall|i: int, j: int| #![trigger sorted@[i], sorted@[j]]
            0 <= i < j < sorted@.len() ==> !comes_before(
                encode_utf8(sorted@[j].sort_key()),
                encode_utf8(sorted@[i].sort_key()),
            ),
        sorted@.filter(|x: T| x.sort_key() == key) == items@.filter(
            |x: T| x.sort_key() == key,
        ),
{
    lemma_ascending_is_ordered(sorted@);
    assert forall|item: T| #[trigger] sorted@.contains(item) == items@.contains(item) by {
        lemma_sorted_contains(items@, sorted@, item);
    }
    lemma_with_key_filters(items@, key);
    lemma_with_key_filters(sorted@, key);
    assert(with_key(sorted@, key) == with_key(items@, key));
}

/// What is sorted by its key is in the order of its keys, with nothing lost.
pub proof fn law_sorted_items<T: Keyed>(items: Seq<T>, sorted: Seq<T>, key: Seq<char>)
    requires
        stably_sorted(items, sorted),
    ensures
        sorted.len() == items.len(),
        forall|item: T| #[trigger] sorted.contains(item) == items.contains(item),
        forall|i: int, j: int| #![trigger sorted[i], sorted[j]]
            0 <= i < j < sorted.len() ==> !comes_before(
                encode_utf8(sorted[j].sort_key()),
                encode_utf8(sorted[i].sort_key()),
            ),
        sorted.filter(|x: T| x.sort_key() == key) == items.filter(
            |x: T| x.sort_key() == key,
        ),
{
    lemma_ascending_is_ordered(sorted);
    assert forall|item: T| #[trigger] sorted.contains(item) == items.contains(item) by {
        lemma_sorted_contains(items, sorted, item);
    }
    lemma_with_key_filters(items, key);
    lemma_with_key_filters(sorted, key);
    assert(with_key(sorted, key) == with_key(items, key));
}

} // verus!
