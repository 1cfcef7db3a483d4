//! The name index: which offset each name stands for.

use crate::record::shifted;
use vstd::prelude::*;

verus! {

/// One name and the offset that it stands for.
struct NameEntry {
    name: String,
    offset: usize,
}

/// A finite map from names to offsets that never holds a name twice.
///
/// The index knows nothing of the slots that the offsets point into; keeping
/// the offsets valid is the work of the tuple that owns the index.
pub(crate) struct NameIndex {
    entries: Vec<NameEntry>,
}

/// `==` on `str`: two string slices are equal when they are the same
/// sequence of characters.
#[verifier::external_body]
fn str_eq(a: &str, b: &str) -> (same: bool)
    ensures
        same == (a@ == b@),
{
    a == b
}

/// The name in the `i`-th entry.
spec fn name_of(entries: Seq<NameEntry>, i: int) -> Seq<char> {
    entries[i].name@
}

/// Whether some entry holds `name`.
spec fn held_in(entries: Seq<NameEntry>, name: Seq<char>) -> bool {
    exists|i: int| 0 <= i < entries.len() && #[trigger] name_of(entries, i) == name
}

/// The place of an entry that holds `name`.
spec fn place_in(entries: Seq<NameEntry>, name: Seq<char>) -> int {
    choose|i: int| 0 <= i < entries.len() && #[trigger] name_of(entries, i) == name
}

/// Whether no two entries hold the same name.
spec fn unique(entries: Seq<NameEntry>) -> bool {
    forall|i: int, j: int|
        #![trigger name_of(entries, i), name_of(entries, j)]
        0 <= i < j < entries.len() ==> name_of(entries, i) != name_of(entries, j)
}

/// The map that a run of entries stands for.
spec fn map_of(entries: Seq<NameEntry>) -> Map<Seq<char>, nat> {
    Map::new(
        |name: Seq<char>| held_in(entries, name),
        |name: Seq<char>| entries[place_in(entries, name)].offset as nat,
    )
}

/// What the map says of the name in a given entry.
proof fn lemma_entry(entries: Seq<NameEntry>, i: int)
    requires
        unique(entries),
        0 <= i < entries.len(),
    ensures
        map_of(entries).contains_key(name_of(entries, i)),
        map_of(entries)[name_of(entries, i)] == entries[i].offset,
{
    let name = name_of(entries, i);
    assert(held_in(entries, name));
    let p = place_in(entries, name);
    if p < i {
        assert(name_of(entries, p) != name_of(entries, i));
    } else if i < p {
        assert(name_of(entries, i) != name_of(entries, p));
    }
}

/// An entry that is held has a place.
proof fn lemma_place(entries: Seq<NameEntry>, name: Seq<char>)
    requires
        held_in(entries, name),
    ensures
        0 <= place_in(entries, name) < entries.len(),
        name_of(entries, place_in(entries, name)) == name,
{
}

impl View for NameIndex {
    type V = Map<Seq<char>, nat>;

    closed spec fn view(&self) -> Map<Seq<char>, nat> {
        map_of(self.entries@)
    }
}

impl NameIndex {
    /// No name is held twice.
    pub(crate) closed spec fn wf(self) -> bool {
        unique(self.entries@)
    }

    /// An index holds finitely many names.
    pub(crate) proof fn lemma_finite(self)
        ensures
            self@.dom().finite(),
    {
        let entries = self.entries@;
        let names = entries.map_values(|e: NameEntry| e.name@);
        vstd::seq_lib::seq_to_set_is_finite(names);
        assert forall|name: Seq<char>| self@.dom().contains(name) <==> names.to_set().contains(
            name,
        ) by {
            if held_in(entries, name) {
                lemma_place(entries, name);
                assert(names[place_in(entries, name)] == name);
            }
            if names.to_set().contains(name) {
                let i = choose|i: int| 0 <= i < names.len() && names[i] == name;
                assert(name_of(entries, i) == name);
            }
        }
        assert(self@.dom() =~= names.to_set());
    }

    /// The index that holds no name.
    pub(crate) fn new() -> (index: Self)
        ensures
            index.wf(),
            index@ == Map::<Seq<char>, nat>::empty(),
    {
        let index = NameIndex { entries: Vec::new() };
        assert(index@ =~= Map::<Seq<char>, nat>::empty());
        index
    }

    /// An index of its own that holds the same names for the same offsets.
    pub(crate) fn duplicate(&self) -> (copy: Self)
        ensures
            copy@ == self@,
            copy.wf() == self.wf(),
    {
        let mut entries: Vec<NameEntry> = Vec::new();
        let mut i: usize = 0;
        while i < self.entries.len()
            invariant
                i <= self.entries@.len(),
                entries@ == self.entries@.subrange(0, i as int),
            decreases self.entries@.len() - i,
        {
            let entry = NameEntry {
                name: self.entries[i].name.clone(),
                offset: self.entries[i].offset,
            };
            entries.push(entry);
            proof {
                assert(entries@ =~= self.entries@.subrange(0, i + 1));
            }
            i += 1;
        }
        proof {
            assert(entries@ =~= self.entries@);
        }
        NameIndex { entries }
    }

    /// The offset that `name` stands for, if the index holds the name.
    pub(crate) fn lookup(&self, name: &str) -> (offset: Option<usize>)
        requires
            self.wf(),
        ensures
            match offset {
                Some(o) => self@.contains_key(name@) && self@[name@] == o,
                None => !self@.contains_key(name@),
            },
    {
        let mut i: usize = 0;
        while i < self.entries.len()
            invariant
                i <= self.entries@.len(),
                self.wf(),
                forall|k: int| 0 <= k < i ==> #[trigger] name_of(self.entries@, k) != name@,
            decreases self.entries@.len() - i,
        {
            if str_eq(self.entries[i].name.as_str(), name) {
                proof {
                    lemma_entry(self.entries@, i as int);
                }
                return Some(self.entries[i].offset);
            }
            i += 1;
        }
        None
    }

    /// Makes `name` stand for `offset`.
    pub(crate) fn insert(&mut self, name: &str, offset: usize)
        requires
            old(self).wf(),
            !old(self)@.contains_key(name@),
        ensures
            final(self).wf(),
            final(self)@ == old(self)@.insert(name@, offset as nat),
    {
        let ghost was = self.entries@;
        self.entries.push(NameEntry { name: name.to_owned(), offset });
        proof {
            let now = self.entries@;
            let last = was.len() as int;
            assert(name_of(now, last) == name@);
            assert forall|i: int| 0 <= i < last implies #[trigger] name_of(now, i) == name_of(
                was,
                i,
            ) && name_of(now, i) != name@ by {
                assert(now[i] == was[i]);
                if name_of(was, i) == name@ {
                    assert(held_in(was, name@));
                }
            }
            assert forall|a: int, b: int| 0 <= a < b < now.len() implies name_of(now, a)
                != name_of(now, b) by {
                assert(name_of(now, a) == name_of(was, a));
                if b < last {
                    assert(name_of(now, b) == name_of(was, b));
                }
            }
            let want = map_of(was).insert(name@, offset as nat);
            assert forall|n: Seq<char>| map_of(now).contains_key(n) <==> want.contains_key(
                n,
            ) by {
                if held_in(was, n) {
                    lemma_place(was, n);
                    assert(name_of(now, place_in(was, n)) == n);
                }
                if held_in(now, n) && n != name@ {
                    lemma_place(now, n);
                    assert(name_of(was, place_in(now, n)) == n);
                }
            }
            assert forall|n: Seq<char>| map_of(now).contains_key(n) implies map_of(now)[n]
                == want[n] by {
                lemma_place(now, n);
                let i = place_in(now, n);
                lemma_entry(now, i);
                if i < last {
                    lemma_entry(was, i);
                }
            }
            assert(map_of(now) =~= want);
        }
    }

    /// Moves every offset one place towards the back.
    pub(crate) fn shift(&mut self)
        requires
            old(self).wf(),
            forall|name: Seq<char>|
                old(self)@.contains_key(name) ==> #[trigger] old(self)@[name] < usize::MAX,
        ensures
            final(self).wf(),
            final(self)@ == shifted(old(self)@),
    {
        let ghost was = self.entries@;
        proof {
            assert forall|name: Seq<char>| map_of(was).contains_key(name) implies #[trigger] map_of(
                was,
            )[name] < usize::MAX by {
                assert(self@[name] < usize::MAX);
            }
        }
        let mut i: usize = 0;
        while i < self.entries.len()
            invariant
                unique(was),
                i <= self.entries@.len(),
                self.entries@.len() == was.len(),
                forall|k: int|
                    0 <= k < was.len() ==> #[trigger] name_of(self.entries@, k) == name_of(
                        was,
                        k,
                    ),
                forall|k: int|
                    0 <= k < i ==> (#[trigger] self.entries@[k]).offset == was[k].offset + 1,
                forall|k: int|
                    i <= k < was.len() ==> (#[trigger] self.entries@[k]).offset == was[k].offset,
                forall|name: Seq<char>|
                    map_of(was).contains_key(name) ==> #[trigger] map_of(was)[name] < usize::MAX,
            decreases self.entries@.len() - i,
        {
            proof {
                lemma_entry(was, i as int);
            }
            let ghost prior = self.entries@;
            self.entries[i].offset = self.entries[i].offset + 1;
            proof {
                assert forall|k: int| 0 <= k < was.len() implies #[trigger] name_of(
                    self.entries@,
                    k,
                ) == name_of(was, k) by {
                    assert(name_of(prior, k) == name_of(was, k));
                }
            }
            i += 1;
        }
        proof {
            let now = self.entries@;
            assert forall|a: int, b: int| 0 <= a < b < now.len() implies name_of(now, a)
                != name_of(now, b) by {
                assert(name_of(was, a) != name_of(was, b));
            }
            assert forall|n: Seq<char>| held_in(now, n) <==> held_in(was, n) by {
                if held_in(now, n) {
                    lemma_place(now, n);
                    assert(name_of(was, place_in(now, n)) == n);
                }
                if held_in(was, n) {
                    lemma_place(was, n);
                    assert(name_of(now, place_in(was, n)) == n);
                }
            }
            assert forall|n: Seq<char>| map_of(now).contains_key(n) implies map_of(now)[n]
                == shifted(map_of(was))[n] by {
                lemma_place(now, n);
                let k = place_in(now, n);
                lemma_entry(now, k);
                lemma_entry(was, k);
            }
            assert(map_of(now) =~= shifted(map_of(was)));
        }
    }
}

} // verus!
