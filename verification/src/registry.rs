//! The registry: the container format of every aggregate, by the name under
//! which the aggregate is serialized, in the order of the names.

use vstd::prelude::*;
use crate::format::{ContainerFormat, ContainerModel};
use crate::text::{before_is_total, before_is_transitive, rank, text_before, Rank};

verus! {

/// A mapping from names to container formats, kept in the order of the names.
#[derive(Debug, PartialEq, Eq)]
pub struct Registry {
    entries: Vec<(String, ContainerFormat)>,
}

/// The mapping that a list of entries stands for; of two entries with one
/// name the later one counts.
pub open spec fn mapping(entries: Seq<(String, ContainerFormat)>) -> Map<
    Seq<char>,
    ContainerModel,
>
    decreases entries.len(),
{
    if entries.len() == 0 {
        Map::empty()
    } else {
        mapping(entries.drop_last()).insert(entries.last().0@, entries.last().1@)
    }
}

/// Each entry stands before every later one in the order of their names.
pub open spec fn sorted_by_name(entries: Seq<(String, ContainerFormat)>) -> bool {
    forall|i: int, j: int|
        0 <= i < j < entries.len() ==> text_before(
            (#[trigger] entries[i]).0@,
            (#[trigger] entries[j]).0@,
        )
}

/// A list of entries in the order of their names maps each of its names to
/// the container that stands with it, and no other name.
pub proof fn mapping_of_sorted(entries: Seq<(String, ContainerFormat)>)
    requires
        sorted_by_name(entries),
    ensures
        forall|i: int|
            0 <= i < entries.len() ==> mapping(entries).contains_key((#[trigger] entries[i]).0@)
                && mapping(entries)[entries[i].0@] == entries[i].1@,
        forall|name: Seq<char>|
            mapping(entries).contains_key(name) ==> exists|i: int|
                0 <= i < entries.len() && (#[trigger] entries[i]).0@ == name,
    decreases entries.len(),
{
    if entries.len() > 0 {
        let shorter = entries.drop_last();
        assert(sorted_by_name(shorter)) by {
            assert forall|i: int, j: int| 0 <= i < j < shorter.len() implies text_before(
                (#[trigger] shorter[i]).0@,
                (#[trigger] shorter[j]).0@,
            ) by {
                assert(shorter[i] == entries[i]);
                assert(shorter[j] == entries[j]);
            }
        }
        mapping_of_sorted(shorter);
        assert forall|i: int| 0 <= i < entries.len() implies mapping(entries).contains_key(
            (#[trigger] entries[i]).0@,
        ) && mapping(entries)[entries[i].0@] == entries[i].1@ by {
            if i < shorter.len() {
                assert(shorter[i] == entries[i]);
                assert(text_before(entries[i].0@, entries[entries.len() - 1].0@));
                before_is_total(entries[i].0@, entries.last().0@);
            }
        }
        assert forall|name: Seq<char>| mapping(entries).contains_key(name) implies exists|i: int|
            0 <= i < entries.len() && (#[trigger] entries[i]).0@ == name by {
            if name == entries.last().0@ {
                assert(entries[entries.len() - 1].0@ == name);
            } else {
                assert(mapping(shorter).contains_key(name));
                let i = choose|i: int| 0 <= i < shorter.len() && (#[trigger] shorter[i]).0@ == name;
                assert(entries[i] == shorter[i]);
            }
        }
    }
}

/// Without its last entry, a list in the order of the names maps what it
/// mapped before but the name of that entry.
pub proof fn mapping_without_last(entries: Seq<(String, ContainerFormat)>)
    requires
        sorted_by_name(entries),
        entries.len() > 0,
    ensures
        sorted_by_name(entries.drop_last()),
        mapping(entries.drop_last()) == mapping(entries).remove(entries.last().0@),
{
    let shorter = entries.drop_last();
    assert(sorted_by_name(shorter)) by {
        assert forall|i: int, j: int| 0 <= i < j < shorter.len() implies text_before(
            (#[trigger] shorter[i]).0@,
            (#[trigger] shorter[j]).0@,
        ) by {
            assert(shorter[i] == entries[i]);
            assert(shorter[j] == entries[j]);
        }
    }
    mapping_of_sorted(shorter);
    let name = entries.last().0@;
    if mapping(shorter).contains_key(name) {
        let i = choose|i: int| 0 <= i < shorter.len() && (#[trigger] shorter[i]).0@ == name;
        assert(shorter[i] == entries[i]);
        assert(text_before(entries[i].0@, entries[entries.len() - 1].0@));
        before_is_total(name, name);
    }
    assert(mapping(shorter) =~= mapping(entries).remove(name));
}

/// Two lists in the order of the names that stand for one mapping hold the
/// same names with the same containers, place by place: a mapping has one
/// listing only.
pub proof fn listing_is_unique(
    a: Seq<(String, ContainerFormat)>,
    b: Seq<(String, ContainerFormat)>,
)
    requires
        sorted_by_name(a),
        sorted_by_name(b),
        mapping(a) == mapping(b),
    ensures
        a.len() == b.len(),
        forall|i: int| 0 <= i < a.len() ==> a[i].0@ == b[i].0@ && a[i].1@ == b[i].1@,
    decreases a.len(),
{
    mapping_of_sorted(a);
    mapping_of_sorted(b);
    if a.len() == 0 {
        if b.len() > 0 {
            assert(mapping(b).contains_key(b[0].0@));
        }
    } else if b.len() == 0 {
        assert(mapping(a).contains_key(a[0].0@));
    } else {
        let x = a.last().0@;
        let y = b.last().0@;
        assert(a[a.len() - 1].0@ == x);
        assert(b[b.len() - 1].0@ == y);
        assert(mapping(b).contains_key(x));
        assert(mapping(a).contains_key(y));
        let i = choose|i: int| 0 <= i < b.len() && (#[trigger] b[i]).0@ == x;
        let j = choose|j: int| 0 <= j < a.len() && (#[trigger] a[j]).0@ == y;
        before_is_total(x, y);
        if i < b.len() - 1 {
            assert(text_before(b[i].0@, b[b.len() - 1].0@));
        }
        if j < a.len() - 1 {
            assert(text_before(a[j].0@, a[a.len() - 1].0@));
        }
        assert(x == y);
        mapping_without_last(a);
        mapping_without_last(b);
        listing_is_unique(a.drop_last(), b.drop_last());
        assert forall|k: int| 0 <= k < a.len() implies a[k].0@ == b[k].0@ && a[k].1@
            == b[k].1@ by {
            if k < a.len() - 1 {
                assert(a.drop_last()[k] == a[k]);
                assert(b.drop_last()[k] == b[k]);
            }
        }
    }
}

/// Where a name goes into a list in the order of the names: the place of the
/// first entry that does not stand before it, and whether that entry carries
/// the name.
pub fn slot_for(entries: &Vec<(String, ContainerFormat)>, name: &str) -> (r: (usize, bool))
    ensures
        r.0 <= entries@.len(),
        forall|k: int| 0 <= k < r.0 ==> text_before((#[trigger] entries@[k]).0@, name@),
        r.1 ==> r.0 < entries@.len() && entries@[r.0 as int].0@ == name@,
        !r.1 ==> r.0 == entries@.len() || text_before(name@, entries@[r.0 as int].0@),
{
    let mut at: usize = 0;
    while at < entries.len()
        invariant
            at <= entries.len(),
            forall|k: int| 0 <= k < at ==> text_before((#[trigger] entries@[k]).0@, name@),
        decreases entries.len() - at,
    {
        match rank(entries[at].0.as_str(), name) {
            Rank::Before => {},
            Rank::Same => {
                return (at, true);
            },
            Rank::After => {
                return (at, false);
            },
        }
        at += 1;
    }
    (at, false)
}

impl View for Registry {
    type V = Map<Seq<char>, ContainerModel>;

    closed spec fn view(&self) -> Map<Seq<char>, ContainerModel> {
        mapping(self.entries@)
    }
}

impl Registry {
    #[verifier::type_invariant]
    spec fn in_order(&self) -> bool {
        sorted_by_name(self.entries@)
    }

    /// The entries of the registry, name by name.
    pub closed spec fn listing(&self) -> Seq<(String, ContainerFormat)> {
        self.entries@
    }

    /// A registry without entries.
    pub fn new() -> (r: Registry)
        ensures
            r@ == Map::<Seq<char>, ContainerModel>::empty(),
            r.listing().len() == 0,
    {
        Registry { entries: Vec::new() }
    }

    /// Maps the name to the container, whatever it was mapped to before.
    pub fn insert(&mut self, name: String, container: ContainerFormat)
        ensures
            final(self)@ == old(self)@.insert(name@, container@),
    {
        proof {
            use_type_invariant(&*self);
        }
        let (at, found) = slot_for(&self.entries, name.as_str());
        let ghost before = self.entries@;
        let ghost entry = (name, container);
        let mut taken: Vec<(String, ContainerFormat)> = Vec::new();
        std::mem::swap(&mut self.entries, &mut taken);
        if found {
            proof {
                let after = before.update(at as int, entry);
                assert forall|i: int, j: int| 0 <= i < j < after.len() implies text_before(
                    (#[trigger] after[i]).0@,
                    (#[trigger] after[j]).0@,
                ) by {
                    assert(after[i].0@ == before[i].0@);
                    assert(after[j].0@ == before[j].0@);
                }
                mapping_of_sorted(before);
                mapping_of_sorted(after);
                let want = mapping(before).insert(entry.0@, entry.1@);
                assert forall|key: Seq<char>|
                    #![trigger mapping(after).dom().contains(key)]
                    #![trigger want.dom().contains(key)]
                    #![trigger mapping(after)[key]]
                    #![trigger want[key]]
                    mapping(after).dom().contains(key) == want.dom().contains(key) && (
                    want.dom().contains(key) ==> mapping(after)[key] == want[key]) by {
                    if mapping(after).contains_key(key) {
                        let i = choose|i: int|
                            0 <= i < after.len() && (#[trigger] after[i]).0@ == key;
                        assert(before[i].0@ == key);
                    }
                    if want.contains_key(key) {
                        if key == entry.0@ {
                            assert(after[at as int].0@ == key);
                        } else {
                            let i = choose|i: int|
                                0 <= i < before.len() && (#[trigger] before[i]).0@ == key;
                            assert(after[i] == before[i]);
                        }
                    }
                }
                assert(mapping(after) =~= want);
            }
            taken.set(at, (name, container));
        } else {
            proof {
                let after = before.insert(at as int, entry);
                assert forall|i: int, j: int| 0 <= i < j < after.len() implies text_before(
                    (#[trigger] after[i]).0@,
                    (#[trigger] after[j]).0@,
                ) by {
                    if j < at {
                        assert(after[i] == before[i] && after[j] == before[j]);
                    } else if j == at {
                        assert(after[i] == before[i]);
                    } else if i == at {
                        assert(after[j] == before[j - 1]);
                        if j - 1 > at {
                            before_is_transitive(entry.0@, before[at as int].0@, before[j - 1].0@);
                        }
                    } else if i < at {
                        assert(after[i] == before[i] && after[j] == before[j - 1]);
                    } else {
                        assert(after[i] == before[i - 1] && after[j] == before[j - 1]);
                    }
                }
                mapping_of_sorted(before);
                mapping_of_sorted(after);
                let want = mapping(before).insert(entry.0@, entry.1@);
                assert forall|key: Seq<char>|
                    #![trigger mapping(after).dom().contains(key)]
                    #![trigger want.dom().contains(key)]
                    #![trigger mapping(after)[key]]
                    #![trigger want[key]]
                    mapping(after).dom().contains(key) == want.dom().contains(key) && (
                    want.dom().contains(key) ==> mapping(after)[key] == want[key]) by {
                    if mapping(after).contains_key(key) && key != entry.0@ {
                        let i = choose|i: int|
                            0 <= i < after.len() && (#[trigger] after[i]).0@ == key;
                        if i < at {
                            assert(before[i] == after[i]);
                        } else {
                            assert(before[i - 1] == after[i]);
                        }
                    }
                    if want.contains_key(key) {
                        if key == entry.0@ {
                            assert(after[at as int].0@ == key);
                        } else {
                            let i = choose|i: int|
                                0 <= i < before.len() && (#[trigger] before[i]).0@ == key;
                            if i < at {
                                assert(after[i] == before[i]);
                            } else {
                                assert(after[i + 1] == before[i]);
                            }
                        }
                    }
                }
                assert(mapping(after) =~= want);
            }
            taken.insert(at, (name, container));
        }
        self.entries = taken;
    }

    /// The container that the name is mapped to.
    pub fn get(&self, name: &str) -> (r: Option<&ContainerFormat>)
        ensures
            match r {
                Some(container) => self@.contains_key(name@) && self@[name@] == container@,
                None => !self@.contains_key(name@),
            },
    {
        proof {
            use_type_invariant(self);
            mapping_of_sorted(self.entries@);
        }
        let (at, found) = slot_for(&self.entries, name);
        if found {
            Some(&self.entries[at].1)
        } else {
            proof {
                if self@.contains_key(name@) {
                    let i = choose|i: int|
                        0 <= i < self.entries@.len() && (#[trigger] self.entries@[i]).0@ == name@;
                    before_is_total(name@, name@);
                    if i < at {
                        assert(text_before(self.entries@[i].0@, name@));
                    } else {
                        if i > at {
                            before_is_transitive(
                                name@,
                                self.entries@[at as int].0@,
                                self.entries@[i].0@,
                            );
                        }
                    }
                }
            }
            None
        }
    }

    /// Whether the registry maps the name to anything.
    pub fn contains(&self, name: &str) -> (r: bool)
        ensures
            r == self@.contains_key(name@),
    {
        self.get(name).is_some()
    }

    /// The entries of the registry: each name once, in the order of the
    /// names, with the container that the name is mapped to.
    pub fn entries(&self) -> (r: &Vec<(String, ContainerFormat)>)
        ensures
            r@ == self.listing(),
            sorted_by_name(r@),
            mapping(r@) == self@,
    {
        proof {
            use_type_invariant(self);
        }
        &self.entries
    }

    /// How many names the registry maps.
    pub fn len(&self) -> (r: usize)
        ensures
            r == self.listing().len(),
    {
        self.entries.len()
    }
}

} // verus!
