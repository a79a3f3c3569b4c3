//! A map keyed by 32-byte names, kept as entries in ascending order.

use crate::ant_protocol::XorName;
use crate::names;
use crate::names::search_entries;
use vstd::prelude::*;

verus! {

/// A map from names to values.
pub struct NameMap<V> {
    entries: Vec<(XorName, V)>,
}

/// The map that strictly ascending entries stand for.
pub open spec fn entries_map<V>(entries: Seq<(XorName, V)>) -> Map<XorName, V> {
    Map::new(
        |name: XorName| exists|i: int| 0 <= i < entries.len() && (#[trigger] entries[i]).0 == name,
        |name: XorName| entries[place_of(entries, name)].1,
    )
}

/// Where `name` stands among the entries.
pub open spec fn place_of<V>(entries: Seq<(XorName, V)>, name: XorName) -> int {
    choose|i: int| 0 <= i < entries.len() && (#[trigger] entries[i]).0 == name
}

/// The map holds the value of each entry under its name.
proof fn entry_in_map<V>(entries: Seq<(XorName, V)>, i: int)
    requires
        names::strictly_ascending(entries),
        0 <= i < entries.len(),
    ensures
        entries_map(entries).contains_key(entries[i].0),
        entries_map(entries)[entries[i].0] == entries[i].1,
        place_of(entries, entries[i].0) == i,
{
    let name = entries[i].0;
    let k = place_of(entries, name);
    assert(entries[i].0 == name);
    assert(0 <= k < entries.len() && entries[k].0 == name);
    names::name_order_is_strict(name, name);
    if k < i {
        assert(names::name_before(entries[k].0, entries[i].0));
    } else if i < k {
        assert(names::name_before(entries[i].0, entries[k].0));
    }
}

/// The map has as many keys as there are entries.
proof fn map_len<V>(entries: Seq<(XorName, V)>)
    requires
        names::strictly_ascending(entries),
    ensures
        entries_map(entries).dom().finite(),
        entries_map(entries).dom().len() == entries.len(),
    decreases entries.len(),
{
    let map = entries_map(entries);
    if entries.len() == 0 {
        assert(map.dom() =~= Set::empty());
    } else {
        let rest = entries.drop_last();
        let last = entries.last().0;
        assert(names::strictly_ascending(rest));
        map_len(rest);
        let inner = entries_map(rest);
        assert forall|name: XorName| #[trigger] map.dom().contains(name) <==> inner.dom().insert(
            last,
        ).contains(name) by {
            if map.dom().contains(name) {
                let i = choose|i: int| 0 <= i < entries.len() && (#[trigger] entries[i]).0 == name;
                if i < rest.len() {
                    assert(rest[i].0 == name);
                }
            }
            if inner.dom().contains(name) {
                let i = choose|i: int| 0 <= i < rest.len() && (#[trigger] rest[i]).0 == name;
                assert(entries[i].0 == name);
            }
            if name == last {
                assert(entries[entries.len() - 1].0 == name);
            }
        }
        assert(map.dom() =~= inner.dom().insert(last));
        assert(!inner.dom().contains(last)) by {
            if inner.dom().contains(last) {
                let i = choose|i: int| 0 <= i < rest.len() && (#[trigger] rest[i]).0 == last;
                assert(names::name_before(entries[i].0, entries[entries.len() - 1].0));
                names::name_order_is_strict(last, last);
            }
        }
    }
}

/// How many of the entries satisfy `wanted`.
pub open spec fn count_where<V>(
    entries: Seq<(XorName, V)>,
    wanted: spec_fn(XorName, V) -> bool,
) -> nat
    decreases entries.len(),
{
    if entries.len() == 0 {
        0
    } else {
        count_where(entries.drop_last(), wanted) + (if wanted(entries.last().0, entries.last().1) {
            1nat
        } else {
            0
        })
    }
}

/// The names of a map whose values satisfy `wanted`.
pub open spec fn names_where<V>(
    map: Map<XorName, V>,
    wanted: spec_fn(XorName, V) -> bool,
) -> Set<XorName> {
    map.dom().filter(|name: XorName| wanted(name, map[name]))
}

/// Counting entries is counting names.
pub proof fn count_is_cardinality<V>(
    entries: Seq<(XorName, V)>,
    wanted: spec_fn(XorName, V) -> bool,
)
    requires
        names::strictly_ascending(entries),
    ensures
        names_where(entries_map(entries), wanted).finite(),
        names_where(entries_map(entries), wanted).len() == count_where(entries, wanted),
    decreases entries.len(),
{
    let map = entries_map(entries);
    let found = names_where(map, wanted);
    if entries.len() == 0 {
        assert(found =~= Set::empty());
    } else {
        let rest = entries.drop_last();
        let last = entries.last();
        assert(names::strictly_ascending(rest));
        count_is_cardinality(rest, wanted);
        let inner = entries_map(rest);
        let before = names_where(inner, wanted);
        entry_in_map(entries, entries.len() - 1);
        assert(!inner.contains_key(last.0)) by {
            if inner.contains_key(last.0) {
                let i = place_of(rest, last.0);
                assert(rest[i].0 == last.0);
                assert(names::name_before(entries[i].0, entries[entries.len() - 1].0));
                names::name_order_is_strict(last.0, last.0);
            }
        }
        assert forall|name: XorName| #[trigger] found.contains(name) <==> before.contains(name) || (
        name == last.0 && wanted(last.0, last.1)) by {
            if map.contains_key(name) && name != last.0 {
                let i = place_of(entries, name);
                assert(entries[i].0 == name);
                assert(rest[i].0 == name);
                entry_in_map(entries, i);
                entry_in_map(rest, i);
            }
            if inner.contains_key(name) {
                let i = place_of(rest, name);
                assert(rest[i].0 == name);
                assert(entries[i].0 == name);
                entry_in_map(entries, i);
                entry_in_map(rest, i);
            }
        }
        if wanted(last.0, last.1) {
            assert(found =~= before.insert(last.0));
        } else {
            assert(found =~= before);
        }
    }
}

/// The name of an entry is in the map, and a name in the map has an entry.
pub proof fn names_are_listed<V>(entries: Seq<(XorName, V)>)
    requires
        names::strictly_ascending(entries),
    ensures
        forall|i: int|
            0 <= i < entries.len() ==> entries_map(entries).contains_key(
                (#[trigger] entries[i]).0,
            ) && entries_map(entries)[entries[i].0] == entries[i].1,
        forall|name: XorName| #[trigger]
            entries_map(entries).contains_key(name) ==> 0 <= place_of(entries, name)
                < entries.len() && entries[place_of(entries, name)].0 == name,
{
    assert forall|i: int| 0 <= i < entries.len() implies entries_map(entries).contains_key(
        (#[trigger] entries[i]).0,
    ) && entries_map(entries)[entries[i].0] == entries[i].1 by {
        entry_in_map(entries, i);
    }
}

impl<V> View for NameMap<V> {
    type V = Map<XorName, V>;

    closed spec fn view(&self) -> Map<XorName, V> {
        entries_map(self.entries@)
    }
}

impl<V> NameMap<V> {
    /// The entries in their order.
    pub closed spec fn listed(&self) -> Seq<(XorName, V)> {
        self.entries@
    }

    /// The entries are in order, each name once.
    #[verifier::type_invariant]
    spec fn well_formed(self) -> bool {
        names::strictly_ascending(self.entries@)
    }

    /// A map without entries.
    pub fn new() -> (map: Self)
        ensures
            map@ == Map::<XorName, V>::empty(),
    {
        let entries: Vec<(XorName, V)> = Vec::new();
        assert(entries_map(entries@) =~= Map::<XorName, V>::empty());
        NameMap { entries }
    }

    /// How many names the map holds.
    pub fn len(&self) -> (len: usize)
        ensures
            len == self@.dom().len(),
            len == self.listed().len(),
            self@.dom().finite(),
            self@ == entries_map(self.listed()),
            names::strictly_ascending(self.listed()),
    {
        proof {
            use_type_invariant(self);
            map_len(self.entries@);
        }
        self.entries.len()
    }

    /// The entry at `index` in the order of names.
    pub fn at(&self, index: usize) -> (entry: &(XorName, V))
        requires
            index < self.listed().len(),
        ensures
            *entry == self.listed()[index as int],
            self@.contains_key(entry.0),
            self@[entry.0] == entry.1,
    {
        proof {
            use_type_invariant(self);
            entry_in_map(self.entries@, index as int);
        }
        &self.entries[index]
    }

    /// The value under `name`, if there is one.
    pub fn get(&self, name: &XorName) -> (value: Option<&V>)
        ensures
            match value {
                Some(v) => self@.contains_key(*name) && *v == self@[*name],
                None => !self@.contains_key(*name),
            },
    {
        proof {
            use_type_invariant(self);
        }
        match search_entries(&self.entries, name) {
            Ok(i) => {
                proof {
                    entry_in_map(self.entries@, i as int);
                }
                Some(&self.entries[i].1)
            },
            Err(_) => None,
        }
    }

    /// Whether the map holds `name`.
    pub fn contains(&self, name: &XorName) -> (held: bool)
        ensures
            held == self@.contains_key(*name),
    {
        self.get(name).is_some()
    }

    /// Put `value` under `name`, in place of what was there.
    pub fn insert(&mut self, name: XorName, value: V)
        ensures
            final(self)@ == old(self)@.insert(name, value),
    {
        proof {
            use_type_invariant(&*self);
        }
        let ghost before = self.entries@;
        let place = search_entries(&self.entries, &name);
        let mut entries: Vec<(XorName, V)> = Vec::new();
        std::mem::swap(&mut entries, &mut self.entries);
        match place {
            Ok(i) => {
                entries[i] = (name, value);
                proof {
                    replaced(before, i as int, value);
                }
            },
            Err(i) => {
                entries.insert(i, (name, value));
                proof {
                    inserted(before, i as int, name, value);
                }
            },
        }
        self.entries = entries;
    }

    /// Take `name` and its value out of the map.
    pub fn remove(&mut self, name: &XorName) -> (value: Option<V>)
        ensures
            final(self)@ == old(self)@.remove(*name),
            match value {
                Some(v) => old(self)@.contains_key(*name) && v == old(self)@[*name],
                None => !old(self)@.contains_key(*name),
            },
    {
        proof {
            use_type_invariant(&*self);
        }
        let ghost before = self.entries@;
        match search_entries(&self.entries, name) {
            Ok(i) => {
                proof {
                    entry_in_map(before, i as int);
                    removed(before, i as int);
                }
                let mut entries: Vec<(XorName, V)> = Vec::new();
                std::mem::swap(&mut entries, &mut self.entries);
                let entry = entries.remove(i);
                self.entries = entries;
                Some(entry.1)
            },
            Err(_) => {
                assert(self@.remove(*name) =~= self@);
                None
            },
        }
    }
}

/// Replacing the value of an entry replaces that of its name.
proof fn replaced<V>(entries: Seq<(XorName, V)>, i: int, value: V)
    requires
        names::strictly_ascending(entries),
        0 <= i < entries.len(),
    ensures
        names::strictly_ascending(entries.update(i, (entries[i].0, value))),
        entries_map(entries.update(i, (entries[i].0, value))) == entries_map(entries).insert(
            entries[i].0,
            value,
        ),
{
    let name = entries[i].0;
    let after = entries.update(i, (name, value));
    let map = entries_map(after);
    let expected = entries_map(entries).insert(name, value);
    assert forall|p: int, q: int| 0 <= p < q < after.len() implies names::name_before(
        #[trigger] after[p].0,
        #[trigger] after[q].0,
    ) by {
        assert(names::name_before(entries[p].0, entries[q].0));
    }
    assert forall|n: XorName| map.contains_key(n) <==> expected.contains_key(n) by {
        if map.contains_key(n) {
            let k = place_of(after, n);
            assert(entries[k].0 == n);
        }
        if expected.contains_key(n) {
            if n == name {
                assert(after[i].0 == n);
            } else {
                let k = place_of(entries, n);
                assert(entries[k].0 == n);
                assert(after[k].0 == n);
            }
        }
    }
    assert forall|n: XorName| map.contains_key(n) implies map[n] == expected[n] by {
        let k = place_of(after, n);
        assert(after[k].0 == n);
        entry_in_map(after, k);
        if n != name {
            entry_in_map(entries, k);
        } else {
            entry_in_map(after, i);
        }
    }
    assert(map =~= expected);
}

/// Inserting an entry where it belongs inserts its name.
proof fn inserted<V>(entries: Seq<(XorName, V)>, i: int, name: XorName, value: V)
    requires
        names::strictly_ascending(entries),
        0 <= i <= entries.len(),
        forall|k: int| 0 <= k < i ==> names::name_before(#[trigger] entries[k].0, name),
        forall|k: int| i <= k < entries.len() ==> names::name_before(name, #[trigger] entries[k].0),
        forall|k: int| 0 <= k < entries.len() ==> (#[trigger] entries[k].0) != name,
    ensures
        names::strictly_ascending(entries.insert(i, (name, value))),
        entries_map(entries.insert(i, (name, value))) == entries_map(entries).insert(name, value),
{
    let after = entries.insert(i, (name, value));
    let map = entries_map(after);
    let expected = entries_map(entries).insert(name, value);
    assert forall|p: int, q: int| 0 <= p < q < after.len() implies names::name_before(
        #[trigger] after[p].0,
        #[trigger] after[q].0,
    ) by {
        let p0 = if p < i { p } else { p - 1 };
        let q0 = if q < i { q } else { q - 1 };
        if p != i && q != i {
            assert(names::name_before(entries[p0].0, entries[q0].0));
        } else if p == i {
            assert(names::name_before(name, entries[q0].0));
        } else {
            assert(names::name_before(entries[p0].0, name));
        }
    }
    assert forall|n: XorName| map.contains_key(n) <==> expected.contains_key(n) by {
        if map.contains_key(n) && n != name {
            let k = place_of(after, n);
            assert(after[k].0 == n);
            let k0 = if k < i { k } else { k - 1 };
            assert(entries[k0].0 == n);
        }
        if expected.contains_key(n) {
            if n == name {
                assert(after[i].0 == n);
            } else {
                let k = place_of(entries, n);
                assert(entries[k].0 == n);
                let k1 = if k < i { k } else { k + 1 };
                assert(after[k1].0 == n);
            }
        }
    }
    assert forall|n: XorName| map.contains_key(n) implies map[n] == expected[n] by {
        let k = place_of(after, n);
        assert(after[k].0 == n);
        entry_in_map(after, k);
        if n == name {
            entry_in_map(after, i);
        } else {
            let k0 = if k < i { k } else { k - 1 };
            assert(entries[k0].0 == n);
            entry_in_map(entries, k0);
        }
    }
    assert(map =~= expected);
}

/// Removing an entry removes its name.
proof fn removed<V>(entries: Seq<(XorName, V)>, i: int)
    requires
        names::strictly_ascending(entries),
        0 <= i < entries.len(),
    ensures
        names::strictly_ascending(entries.remove(i)),
        entries_map(entries.remove(i)) == entries_map(entries).remove(entries[i].0),
{
    let name = entries[i].0;
    let after = entries.remove(i);
    let map = entries_map(after);
    let expected = entries_map(entries).remove(name);
    assert forall|p: int, q: int| 0 <= p < q < after.len() implies names::name_before(
        #[trigger] after[p].0,
        #[trigger] after[q].0,
    ) by {
        let p1 = if p < i { p } else { p + 1 };
        let q1 = if q < i { q } else { q + 1 };
        assert(names::name_before(entries[p1].0, entries[q1].0));
    }
    assert forall|n: XorName| map.contains_key(n) <==> expected.contains_key(n) by {
        if map.contains_key(n) {
            let k = place_of(after, n);
            assert(after[k].0 == n);
            let k1 = if k < i { k } else { k + 1 };
            assert(entries[k1].0 == n);
            entry_in_map(entries, k1);
            entry_in_map(entries, i);
        }
        if expected.contains_key(n) {
            let k = place_of(entries, n);
            assert(entries[k].0 == n);
            let k0 = if k < i { k } else { k - 1 };
            assert(after[k0].0 == n);
        }
    }
    assert forall|n: XorName| map.contains_key(n) implies map[n] == expected[n] by {
        let k = place_of(after, n);
        assert(after[k].0 == n);
        entry_in_map(after, k);
        let k1 = if k < i { k } else { k + 1 };
        assert(entries[k1].0 == n);
        entry_in_map(entries, k1);
    }
    assert(map =~= expected);
}

} // verus!
