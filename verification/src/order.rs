//! Putting things in the order of their names.

use crate::text::{chars_of, texts};
use vstd::prelude::*;

verus! {

/// Whether a text comes before another or is the same, character by character.
pub open spec fn text_le(a: Seq<char>, b: Seq<char>) -> bool
    decreases a.len(),
{
    if a.len() == 0 {
        true
    } else if b.len() == 0 {
        false
    } else if a[0] == b[0] {
        text_le(a.drop_first(), b.drop_first())
    } else {
        a[0] < b[0]
    }
}

/// Tells whether a text comes before another or is the same.
pub fn not_after(a: &str, b: &str) -> (r: bool)
    ensures
        r == text_le(a@, b@),
{
    let left = chars_of(a);
    let right = chars_of(b);
    let mut i: usize = 0;
    assert(a@.skip(0) =~= a@ && b@.skip(0) =~= b@);
    while i < left.len()
        invariant
            left@ == a@,
            right@ == b@,
            i <= left@.len(),
            i <= right@.len(),
            text_le(a@, b@) == text_le(a@.skip(i as int), b@.skip(i as int)),
        decreases left@.len() - i,
    {
        if i >= right.len() {
            return false;
        }
        if left[i] != right[i] {
            return left[i] < right[i];
        }
        assert(a@.skip(i as int).drop_first() =~= a@.skip(i + 1));
        assert(b@.skip(i as int).drop_first() =~= b@.skip(i + 1));
        i += 1;
    }
    true
}

/// Any two texts are in one order or the other.
pub proof fn law_order_is_total(a: Seq<char>, b: Seq<char>)
    ensures
        text_le(a, b) || text_le(b, a),
        text_le(a, b) && text_le(b, a) ==> a == b,
    decreases a.len(),
{
    if a.len() > 0 && b.len() > 0 {
        if a[0] == b[0] {
            let x = a.drop_first();
            let y = b.drop_first();
            law_order_is_total(x, y);
            assert(text_le(a, b) == text_le(x, y));
            assert(text_le(b, a) == text_le(y, x));
            if x == y {
                lemma_same_text(a, b);
            }
        }
    } else if a.len() == 0 && b.len() == 0 {
        assert(a =~= b);
    }
}

proof fn lemma_same_text(a: Seq<char>, b: Seq<char>)
    requires
        a.len() > 0,
        b.len() > 0,
        a[0] == b[0],
        a.drop_first() == b.drop_first(),
    ensures
        a == b,
{
    assert(a =~= seq![a[0]] + a.drop_first());
    assert(b =~= seq![b[0]] + b.drop_first());
}

/// The order of texts carries over.
pub proof fn law_order_is_transitive(a: Seq<char>, b: Seq<char>, c: Seq<char>)
    requires
        text_le(a, b),
        text_le(b, c),
    ensures
        text_le(a, c),
    decreases a.len(),
{
    if a.len() > 0 && b.len() > 0 && c.len() > 0 && a[0] == b[0] && b[0] == c[0] {
        law_order_is_transitive(a.drop_first(), b.drop_first(), c.drop_first());
    }
}

/// The place of a new key among ordered ones: behind all that do not come
/// after it.
pub open spec fn place_of(keys: Seq<Seq<char>>, order: Seq<int>, key: Seq<char>) -> int
    decreases order.len(),
{
    if order.len() == 0 || text_le(keys[order.last()], key) {
        order.len() as int
    } else {
        place_of(keys, order.drop_last(), key)
    }
}

/// The places of the first `n` keys, in the order of the keys; equal keys stay
/// in the order in which they came.
pub open spec fn ranks(keys: Seq<Seq<char>>, n: nat) -> Seq<int>
    decreases n,
{
    if n == 0 {
        Seq::empty()
    } else {
        let before = ranks(keys, (n - 1) as nat);
        before.insert(place_of(keys, before, keys[n - 1]), n - 1)
    }
}

/// The places of all keys, in the order of the keys.
pub open spec fn ranked(keys: Seq<Seq<char>>) -> Seq<int> {
    ranks(keys, keys.len())
}

proof fn lemma_place_of(keys: Seq<Seq<char>>, order: Seq<int>, key: Seq<char>)
    ensures
        0 <= place_of(keys, order, key) <= order.len(),
    decreases order.len(),
{
    if order.len() > 0 {
        lemma_place_of(keys, order.drop_last(), key);
    }
}

proof fn lemma_ranks_len(keys: Seq<Seq<char>>, n: nat)
    ensures
        ranks(keys, n).len() == n,
    decreases n,
{
    if n > 0 {
        lemma_ranks_len(keys, (n - 1) as nat);
        lemma_place_of(keys, ranks(keys, (n - 1) as nat), keys[n - 1]);
    }
}

/// Finds the order of keys: gives the places of the keys, sorted.
pub fn sort_order(keys: &Vec<String>) -> (r: Vec<usize>)
    ensures
        r@.len() == keys@.len(),
        forall|i: int|
            0 <= i < r@.len() ==> #[trigger] r@[i] == ranked(texts(keys@))[i] && r@[i]
                < keys@.len(),
{
    let ghost names = texts(keys@);
    let mut order: Vec<usize> = Vec::new();
    let mut n: usize = 0;
    while n < keys.len()
        invariant
            n <= keys@.len(),
            names == texts(keys@),
            order@.len() == n,
            ranks(names, n as nat).len() == n,
            forall|i: int|
                0 <= i < n ==> #[trigger] order@[i] == ranks(names, n as nat)[i] && order@[i]
                    < keys@.len(),
        decreases keys@.len() - n,
    {
        let ghost before = ranks(names, n as nat);
        let mut at: usize = n;
        assert(before.take(n as int) =~= before);
        while at > 0 && !not_after(keys[order[at - 1]].as_str(), keys[n].as_str())
            invariant
                at <= n < keys@.len(),
                names == texts(keys@),
                order@.len() == n,
                before.len() == n,
                forall|i: int|
                    0 <= i < n ==> #[trigger] order@[i] == before[i] && order@[i] < keys@.len(),
                place_of(names, before, names[n as int]) == place_of(
                    names,
                    before.take(at as int),
                    names[n as int],
                ),
            decreases at,
        {
            assert(before.take(at as int).drop_last() =~= before.take(at - 1));
            assert(before.take(at as int).last() == order@[at - 1]);
            at -= 1;
        }
        proof {
            if at > 0 {
                assert(before.take(at as int).last() == order@[at - 1]);
            }
            lemma_ranks_len(names, (n + 1) as nat);
            assert(ranks(names, (n + 1) as nat) == before.insert(at as int, n as int));
        }
        let ghost was = order@;
        order.insert(at, n);
        assert(order@ =~= was.insert(at as int, n));
        n += 1;
    }
    order
}

proof fn lemma_ranks(keys: Seq<Seq<char>>, n: nat)
    requires
        n <= keys.len(),
    ensures
        forall|i: int| 0 <= i < n ==> 0 <= #[trigger] ranks(keys, n)[i] < n,
        forall|i: int, j: int|
            0 <= i < j < n ==> text_le(
                keys[#[trigger] ranks(keys, n)[i]],
                keys[#[trigger] ranks(keys, n)[j]],
            ),
        forall|k: int| 0 <= k < n ==> #[trigger] ranks(keys, n).contains(k),
        ranks(keys, n).no_duplicates(),
    decreases n,
{
    lemma_ranks_len(keys, n);
    if n > 0 {
        let m = (n - 1) as nat;
        let before = ranks(keys, m);
        let at = place_of(keys, before, keys[m as int]);
        let all = ranks(keys, n);
        lemma_ranks_len(keys, m);
        lemma_ranks(keys, m);
        lemma_place_of(keys, before, keys[m as int]);
        lemma_place_splits(keys, before, keys[m as int]);
        assert forall|i: int, j: int| 0 <= i < j < n implies text_le(
            keys[#[trigger] all[i]],
            keys[#[trigger] all[j]],
        ) by {
            if i < at && j == at {
                assert(text_le(keys[before[i]], keys[m as int]));
            } else if i == at {
                assert(text_le(keys[m as int], keys[before[j - 1]]));
            } else if i < at && j < at {
                assert(text_le(keys[before[i]], keys[before[j]]));
            } else if i < at {
                assert(text_le(keys[before[i]], keys[before[j - 1]]));
            } else {
                assert(text_le(keys[before[i - 1]], keys[before[j - 1]]));
            }
        }
        assert forall|k: int| 0 <= k < n implies #[trigger] all.contains(k) by {
            if k == m {
                assert(all[at] == k);
            } else {
                assert(before.contains(k));
                let i = choose|i: int| 0 <= i < before.len() && before[i] == k;
                if i < at {
                    assert(all[i] == k);
                } else {
                    assert(all[i + 1] == k);
                }
            }
        }
        assert forall|i: int, j: int| 0 <= i < n && 0 <= j < n && i != j implies all[i]
            != all[j] by {
            let a = if i < at {
                i
            } else {
                i - 1
            };
            let b = if j < at {
                j
            } else {
                j - 1
            };
            if i != at && j != at {
                assert(before[a] != before[b]);
            } else if i != at {
                assert(before[a] < m);
            } else {
                assert(before[b] < m);
            }
        }
    }
}

/// Before its place no key comes after a new one, behind it every key does not
/// come before it.
proof fn lemma_place_splits(keys: Seq<Seq<char>>, order: Seq<int>, key: Seq<char>)
    requires
        forall|i: int, j: int|
            0 <= i < j < order.len() ==> text_le(
                keys[#[trigger] order[i]],
                keys[#[trigger] order[j]],
            ),
    ensures
        forall|i: int|
            0 <= i < place_of(keys, order, key) ==> text_le(keys[#[trigger] order[i]], key),
        forall|i: int|
            place_of(keys, order, key) <= i < order.len() ==> text_le(
                key,
                keys[#[trigger] order[i]],
            ),
    decreases order.len(),
{
    if order.len() > 0 {
        let last = order.len() - 1;
        if text_le(keys[order.last()], key) {
            assert forall|i: int| 0 <= i < order.len() implies text_le(
                keys[#[trigger] order[i]],
                key,
            ) by {
                if i < last {
                    assert(text_le(keys[order[i]], keys[order[last]]));
                    law_order_is_transitive(keys[order[i]], keys[order[last]], key);
                }
            }
        } else {
            let before = order.drop_last();
            assert forall|i: int, j: int| 0 <= i < j < before.len() implies text_le(
                keys[#[trigger] before[i]],
                keys[#[trigger] before[j]],
            ) by {
                assert(text_le(keys[order[i]], keys[order[j]]));
            }
            lemma_place_splits(keys, before, key);
            lemma_place_of(keys, before, key);
            law_order_is_total(key, keys[order[last]]);
            assert forall|i: int|
                place_of(keys, order, key) <= i < order.len() implies text_le(
                key,
                keys[#[trigger] order[i]],
            ) by {
                if i < last {
                    assert(order[i] == before[i]);
                }
            }
            assert forall|i: int| 0 <= i < place_of(keys, order, key) implies text_le(
                keys[#[trigger] order[i]],
                key,
            ) by {
                assert(order[i] == before[i]);
            }
        }
    }
}

/// The order of keys holds each place exactly once, and no key comes before
/// one that stands ahead of it.
pub proof fn law_ranks_sort(keys: Seq<Seq<char>>)
    ensures
        ranked(keys).len() == keys.len(),
        ranked(keys).no_duplicates(),
        forall|k: int| 0 <= k < keys.len() ==> #[trigger] ranked(keys).contains(k),
        forall|i: int| 0 <= i < keys.len() ==> 0 <= #[trigger] ranked(keys)[i] < keys.len(),
        forall|i: int, j: int|
            0 <= i < j < keys.len() ==> text_le(
                keys[#[trigger] ranked(keys)[i]],
                keys[#[trigger] ranked(keys)[j]],
            ),
{
    lemma_ranks_len(keys, keys.len());
    lemma_ranks(keys, keys.len());
}

/// Texts in order.
pub open spec fn sorted_texts(keys: Seq<Seq<char>>) -> Seq<Seq<char>> {
    Seq::new(keys.len(), |i: int| keys[ranked(keys)[i]])
}

/// Puts texts in order.
pub fn sort_texts(keys: &Vec<String>) -> (r: Vec<String>)
    ensures
        texts(r@) == sorted_texts(texts(keys@)),
{
    let order = sort_order(keys);
    let ghost wanted = sorted_texts(texts(keys@));
    let mut out: Vec<String> = Vec::new();
    let mut i: usize = 0;
    while i < order.len()
        invariant
            i <= order@.len() == keys@.len(),
            wanted == sorted_texts(texts(keys@)),
            forall|k: int|
                0 <= k < order@.len() ==> #[trigger] order@[k] == ranked(texts(keys@))[k]
                    && order@[k] < keys@.len(),
            texts(out@) == wanted.take(i as int),
        decreases order@.len() - i,
    {
        let ghost was = out@;
        let key = keys[order[i]].clone();
        out.push(key);
        assert(texts(out@) =~= texts(was).push(key@));
        assert(wanted.take(i + 1) =~= wanted.take(i as int).push(key@));
        i += 1;
    }
    assert(wanted.take(i as int) =~= wanted);
    out
}

/// Texts are ordered by their first characters that differ, and what a text
/// begins with comes before it.
pub proof fn law_order_goes_by_the_first_difference(a: Seq<char>, b: Seq<char>, i: int)
    requires
        0 <= i <= a.len(),
        i <= b.len(),
        forall|j: int| 0 <= j < i ==> a[j] == b[j],
        i < a.len() && i < b.len() ==> a[i] != b[i],
    ensures
        text_le(a, b) <==> i == a.len() || i < b.len() && a[i] < b[i],
    decreases i,
{
    if i > 0 {
        let x = a.drop_first();
        let y = b.drop_first();
        assert(forall|j: int| 0 <= j < i - 1 ==> x[j] == a[j + 1] && y[j] == b[j + 1]);
        law_order_goes_by_the_first_difference(x, y, i - 1);
    }
}

} // verus!
