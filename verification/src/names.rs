//! The order of addresses, and sorting of entries by address.

use crate::ant_protocol::XorName;
use vstd::prelude::*;

verus! {

/// Whether `a` comes before `b`: at the first byte in which they differ, `a` has the smaller one.
pub open spec fn name_before(a: XorName, b: XorName) -> bool {
    exists|i: int| #[trigger] differ_first_at(a, b, i) && a[i] < b[i]
}

/// Whether `i` is the first byte in which `a` and `b` differ.
pub open spec fn differ_first_at(a: XorName, b: XorName, i: int) -> bool {
    &&& 0 <= i < 32
    &&& a[i] != b[i]
    &&& forall|j: int| 0 <= j < i ==> a[j] == b[j]
}

/// Whether the addresses of `entries` ascend, none occurring twice.
pub open spec fn strictly_ascending<T>(entries: Seq<(XorName, T)>) -> bool {
    forall|i: int, j: int|
        0 <= i < j < entries.len() ==> name_before(#[trigger] entries[i].0, #[trigger] entries[j].0)
}

/// Whether the addresses of `entries` ascend, where equal ones may be neighbours.
pub open spec fn ascending<T>(entries: Seq<(XorName, T)>) -> bool {
    forall|i: int, j: int|
        0 <= i < j < entries.len() ==> !name_before(
            #[trigger] entries[j].0,
            #[trigger] entries[i].0,
        )
}

/// Whether no address occurs twice in `entries`.
pub open spec fn names_distinct<T>(entries: Seq<(XorName, T)>) -> bool {
    forall|i: int, j: int|
        0 <= i < j < entries.len() ==> (#[trigger] entries[i].0) != (#[trigger] entries[j].0)
}

/// No address comes before itself, and two do not come before each other.
pub proof fn name_order_is_strict(a: XorName, b: XorName)
    ensures
        !name_before(a, a),
        !(name_before(a, b) && name_before(b, a)),
{
    if name_before(a, b) && name_before(b, a) {
        let i = choose|i: int| #[trigger] differ_first_at(a, b, i) && a[i] < b[i];
        let j = choose|j: int| #[trigger] differ_first_at(b, a, j) && b[j] < a[j];
        assert(i == j);
    }
}

/// Addresses are ordered by the first byte in which they differ, the lesser first.
pub proof fn first_difference_decides(a: XorName, b: XorName, i: int)
    requires
        0 <= i < 32,
        forall|j: int| 0 <= j < i ==> #[trigger] a[j] == b[j],
        a[i] < b[i],
    ensures
        name_before(a, b),
        !name_before(b, a),
{
    assert(differ_first_at(a, b, i));
    name_order_is_strict(a, b);
}

/// Of two addresses one comes before the other, unless they are the same.
pub proof fn name_order_is_total(a: XorName, b: XorName)
    ensures
        a == b || name_before(a, b) || name_before(b, a),
{
    if a != b {
        assert(exists|k: int| 0 <= k < 32 && a[k] != b[k]) by {
            if forall|k: int| 0 <= k < 32 ==> a[k] == b[k] {
                assert(a =~= b);
            }
        }
        let k = choose|k: int| 0 <= k < 32 && a[k] != b[k];
        let i = first_difference(a, b, k);
        if a[i] < b[i] {
            assert(differ_first_at(a, b, i) && a[i] < b[i]);
        } else {
            assert(differ_first_at(b, a, i) && b[i] < a[i]);
        }
    }
}

/// The order of addresses is transitive.
pub proof fn name_order_is_transitive(a: XorName, b: XorName, c: XorName)
    requires
        name_before(a, b),
        name_before(b, c),
    ensures
        name_before(a, c),
{
    let i = choose|i: int| #[trigger] differ_first_at(a, b, i) && a[i] < b[i];
    let j = choose|j: int| #[trigger] differ_first_at(b, c, j) && b[j] < c[j];
    let k = if i < j { i } else { j };
    assert(differ_first_at(a, c, k) && a[k] < c[k]);
}

/// The first byte, at `k` or earlier, in which two addresses differ.
proof fn first_difference(a: XorName, b: XorName, k: int) -> (i: int)
    requires
        0 <= k < 32,
        a[k] != b[k],
    ensures
        differ_first_at(a, b, i),
    decreases k,
{
    if exists|j: int| 0 <= j < k && a[j] != b[j] {
        let j = choose|j: int| 0 <= j < k && a[j] != b[j];
        first_difference(a, b, j)
    } else {
        k
    }
}

/// Whether `a` comes before `b`.
pub fn comes_before(a: &XorName, b: &XorName) -> (before: bool)
    ensures
        before == name_before(*a, *b),
{
    let mut i: usize = 0;
    while i < 32
        invariant
            i <= 32,
            forall|j: int| 0 <= j < i ==> a[j] == b[j],
        decreases 32 - i,
    {
        if a[i] != b[i] {
            proof {
                assert(differ_first_at(*a, *b, i as int));
                if a[i as int] > b[i as int] {
                    assert(differ_first_at(*b, *a, i as int));
                    name_order_is_strict(*a, *b);
                }
            }
            return a[i] < b[i];
        }
        i += 1;
    }
    assert(*a =~= *b);
    proof {
        name_order_is_strict(*a, *b);
    }
    false
}

/// Merge two ascending runs of entries into one.
fn merge_entries(left: &Vec<(XorName, [u8; 32])>, right: &Vec<(XorName, [u8; 32])>) -> (merged: Vec<
    (XorName, [u8; 32]),
>)
    requires
        ascending(left@),
        ascending(right@),
    ensures
        ascending(merged@),
        merged@.to_multiset() == left@.to_multiset().add(right@.to_multiset()),
{
    let mut merged: Vec<(XorName, [u8; 32])> = Vec::new();
    let mut i: usize = 0;
    let mut j: usize = 0;
    proof {
        assert(left@.take(0) =~= Seq::empty());
        assert(right@.take(0) =~= Seq::empty());
        assert(merged@ =~= Seq::empty());
        broadcast use vstd::seq_lib::group_to_multiset_ensures;

        assert(merged@.to_multiset() =~= left@.take(0).to_multiset().add(
            right@.take(0).to_multiset(),
        ));
    }
    while i < left.len() || j < right.len()
        invariant
            i <= left.len(),
            j <= right.len(),
            ascending(left@),
            ascending(right@),
            ascending(merged@),
            forall|k: int, l: int|
                0 <= k < merged.len() && i <= l < left.len() ==> !name_before(
                    #[trigger] left@[l].0,
                    #[trigger] merged@[k].0,
                ),
            forall|k: int, l: int|
                0 <= k < merged.len() && j <= l < right.len() ==> !name_before(
                    #[trigger] right@[l].0,
                    #[trigger] merged@[k].0,
                ),
            merged@.to_multiset() == left@.take(i as int).to_multiset().add(
                right@.take(j as int).to_multiset(),
            ),
        decreases left.len() - i + right.len() - j,
    {
        let take_left = if i == left.len() {
            false
        } else if j == right.len() {
            true
        } else {
            !comes_before(&right[j].0, &left[i].0)
        };
        let ghost before = merged@;
        if take_left {
            let entry = left[i];
            proof {
                assert(left@.take(i + 1) =~= left@.take(i as int).push(entry));
                vstd::seq_lib::to_multiset_build(before, entry);
                vstd::seq_lib::to_multiset_build(left@.take(i as int), entry);
                assert forall|l: int| j <= l < right.len() implies !name_before(
                    #[trigger] right@[l].0,
                    entry.0,
                ) by {
                    not_before_is_transitive(entry.0, right@[j as int].0, right@[l].0);
                }
            }
            merged.push(entry);
            i += 1;
            assert(merged@.to_multiset() =~= left@.take(i as int).to_multiset().add(
                right@.take(j as int).to_multiset(),
            ));
        } else {
            let entry = right[j];
            proof {
                assert(right@.take(j + 1) =~= right@.take(j as int).push(entry));
                vstd::seq_lib::to_multiset_build(before, entry);
                vstd::seq_lib::to_multiset_build(right@.take(j as int), entry);
                assert forall|l: int| i <= l < left.len() implies !name_before(
                    #[trigger] left@[l].0,
                    entry.0,
                ) by {
                    name_order_is_strict(entry.0, left@[i as int].0);
                    not_before_is_transitive(entry.0, left@[i as int].0, left@[l].0);
                }
            }
            merged.push(entry);
            j += 1;
            assert(merged@.to_multiset() =~= left@.take(i as int).to_multiset().add(
                right@.take(j as int).to_multiset(),
            ));
        }
    }
    assert(left@.take(i as int) =~= left@);
    assert(right@.take(j as int) =~= right@);
    merged
}

/// What is not before `a` stays so past what is not before it in turn.
proof fn not_before_is_transitive(a: XorName, b: XorName, c: XorName)
    requires
        !name_before(b, a),
        b == c || !name_before(c, b),
    ensures
        !name_before(c, a),
{
    if name_before(c, a) {
        name_order_is_total(a, b);
        if a != b {
            name_order_is_transitive(c, a, b);
        }
    }
}

/// The entries from `from` up to `to`, sorted by address.
fn sort_range(entries: &Vec<(XorName, [u8; 32])>, from: usize, to: usize) -> (sorted: Vec<
    (XorName, [u8; 32]),
>)
    requires
        from <= to <= entries.len(),
    ensures
        ascending(sorted@),
        sorted@.to_multiset() == entries@.subrange(from as int, to as int).to_multiset(),
    decreases to - from,
{
    if to - from <= 1 {
        let mut sorted: Vec<(XorName, [u8; 32])> = Vec::new();
        if to - from == 1 {
            sorted.push(entries[from]);
        }
        assert(sorted@ =~= entries@.subrange(from as int, to as int));
        return sorted;
    }
    let middle: usize = from + (to - from) / 2;
    let left = sort_range(entries, from, middle);
    let right = sort_range(entries, middle, to);
    proof {
        let low = entries@.subrange(from as int, middle as int);
        let high = entries@.subrange(middle as int, to as int);
        assert(entries@.subrange(from as int, to as int) =~= low + high);
        vstd::seq_lib::lemma_multiset_commutative(low, high);
    }
    merge_entries(&left, &right)
}

/// Sort entries by address.
pub fn sort_entries(entries: &Vec<(XorName, [u8; 32])>) -> (sorted: Vec<(XorName, [u8; 32])>)
    ensures
        ascending(sorted@),
        sorted@.to_multiset() == entries@.to_multiset(),
{
    assert(entries@.subrange(0, entries.len() as int) =~= entries@);
    sort_range(entries, 0, entries.len())
}

/// Whether no address occurs twice does not depend on the order of the entries.
pub proof fn distinct_names_permute<T>(a: Seq<(XorName, T)>, b: Seq<(XorName, T)>)
    requires
        a.to_multiset() == b.to_multiset(),
        names_distinct(a),
    ensures
        names_distinct(b),
{
    broadcast use vstd::seq_lib::group_to_multiset_ensures;

    assert forall|p: int, q: int| 0 <= p < a.len() && 0 <= q < a.len() && p != q implies a[p]
        != a[q] by {
        if p < q {
            assert(a[p].0 != a[q].0);
        } else {
            assert(a[q].0 != a[p].0);
        }
    }
    a.lemma_multiset_has_no_duplicates();
    b.lemma_multiset_has_no_duplicates_conv();
    assert forall|i: int, j: int| 0 <= i < j < b.len() implies (#[trigger] b[i].0) != (
    #[trigger] b[j].0) by {
        assert(b.contains(b[i]) && b.contains(b[j]));
        assert(b.to_multiset().count(b[i]) > 0 && b.to_multiset().count(b[j]) > 0);
        assert(a.contains(b[i]) && a.contains(b[j]));
        let p = choose|p: int| 0 <= p < a.len() && a[p] == b[i];
        let q = choose|q: int| 0 <= q < a.len() && a[q] == b[j];
        assert(p != q);
        if p < q {
            assert(a[p].0 != a[q].0);
        } else {
            assert(a[q].0 != a[p].0);
        }
    }
}

/// There is only one order: two strictly ascending sequences that hold the same entries are equal.
pub proof fn order_is_unique<T>(a: Seq<(XorName, T)>, b: Seq<(XorName, T)>)
    requires
        strictly_ascending(a),
        strictly_ascending(b),
        a.to_multiset() == b.to_multiset(),
    ensures
        a == b,
    decreases a.len(),
{
    broadcast use vstd::seq_lib::group_to_multiset_ensures;

    assert(a.to_multiset().len() == a.len());
    assert(b.to_multiset().len() == b.len());
    if a.len() == 0 {
        assert(a =~= b);
    } else {
        assert(a.contains(a[0]) && b.contains(b[0]));
        assert(b.to_multiset().count(a[0]) > 0);
        assert(a.to_multiset().count(b[0]) > 0);
        let j = choose|j: int| 0 <= j < b.len() && b[j] == a[0];
        let i = choose|i: int| 0 <= i < a.len() && a[i] == b[0];
        if i > 0 {
            assert(name_before(a[0].0, a[i].0));
            if j > 0 {
                assert(name_before(b[0].0, b[j].0));
            }
            name_order_is_strict(a[0].0, b[0].0);
        }
        assert(a[0] == b[0]);
        let x = a.remove(0);
        let y = b.remove(0);
        assert(x.to_multiset() =~= a.to_multiset().remove(a[0]));
        assert(y.to_multiset() =~= b.to_multiset().remove(b[0]));
        order_is_unique(x, y);
        assert(a =~= seq![a[0]] + x);
        assert(b =~= seq![b[0]] + y);
    }
}

/// Ascending entries with distinct addresses ascend strictly.
pub proof fn distinct_ascending_is_strict<T>(entries: Seq<(XorName, T)>)
    requires
        ascending(entries),
        names_distinct(entries),
    ensures
        strictly_ascending(entries),
{
    assert forall|i: int, j: int| 0 <= i < j < entries.len() implies name_before(
        #[trigger] entries[i].0,
        #[trigger] entries[j].0,
    ) by {
        name_order_is_total(entries[i].0, entries[j].0);
    }
}

/// Where strictly ascending entries hold `name`, or where it would have to stand.
pub fn search_entries<V>(entries: &Vec<(XorName, V)>, name: &XorName) -> (found: Result<
    usize,
    usize,
>)
    requires
        strictly_ascending(entries@),
    ensures
        match found {
            Ok(i) => i < entries.len() && entries@[i as int].0 == *name,
            Err(i) => {
                &&& i <= entries.len()
                &&& forall|k: int| 0 <= k < i ==> name_before(#[trigger] entries@[k].0, *name)
                &&& forall|k: int|
                    i <= k < entries.len() ==> name_before(*name, #[trigger] entries@[k].0)
                &&& forall|k: int| 0 <= k < entries.len() ==> (#[trigger] entries@[k].0) != *name
            },
        },
{
    let mut low: usize = 0;
    let mut high: usize = entries.len();
    while low < high
        invariant
            low <= high <= entries.len(),
            strictly_ascending(entries@),
            forall|i: int| 0 <= i < low ==> name_before(#[trigger] entries@[i].0, *name),
            forall|i: int|
                high <= i < entries.len() ==> name_before(*name, #[trigger] entries@[i].0),
        decreases high - low,
    {
        let middle: usize = low + (high - low) / 2;
        let here = &entries[middle].0;
        if comes_before(here, name) {
            proof {
                assert forall|i: int| 0 <= i < middle + 1 implies name_before(
                    #[trigger] entries@[i].0,
                    *name,
                ) by {
                    if i < middle {
                        name_order_is_transitive(entries@[i].0, *here, *name);
                    }
                }
            }
            low = middle + 1;
        } else if comes_before(name, here) {
            proof {
                assert forall|i: int| middle <= i < entries.len() implies name_before(
                    *name,
                    #[trigger] entries@[i].0,
                ) by {
                    if middle < i {
                        name_order_is_transitive(*name, *here, entries@[i].0);
                    }
                }
            }
            high = middle;
        } else {
            proof {
                name_order_is_total(*here, *name);
            }
            return Ok(middle);
        }
    }
    proof {
        name_order_is_strict(*name, *name);
    }
    Err(low)
}

} // verus!
