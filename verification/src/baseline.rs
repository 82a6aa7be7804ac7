//! The baseline: for each package name the version that was last recorded,
//! and the comparison of a resolution's outcome with it.

use vstd::prelude::*;

verus! {

/// One entry of a baseline: a package name and its recorded version.
#[derive(Clone, Debug)]
pub struct Entry {
    pub name: String,
    pub version: String,
}

/// Whether no name occurs twice among `entries`.
pub open spec fn names_distinct(entries: Seq<Entry>) -> bool {
    forall|i: int, j: int|
        0 <= i < j < entries.len() ==> (#[trigger] entries[i]).name@ != (#[trigger] entries[j]).name@
}

/// Whether `name` is the name of entry `i`.
pub open spec fn names_entry(entries: Seq<Entry>, name: Seq<char>, i: int) -> bool {
    0 <= i < entries.len() && entries[i].name@ == name
}

/// The mapping that `entries` stand for: from each entry's name to its
/// version.
pub open spec fn mapping_of(entries: Seq<Entry>) -> Map<Seq<char>, Seq<char>> {
    Map::new(
        |name: Seq<char>| exists|i: int| names_entry(entries, name, i),
        |name: Seq<char>| entries[choose|i: int| names_entry(entries, name, i)].version@,
    )
}

/// Distinct names make as many keys as there are entries.
pub proof fn lemma_mapping_size(entries: Seq<Entry>)
    requires
        names_distinct(entries),
    ensures
        mapping_of(entries).dom().finite(),
        mapping_of(entries).dom().len() == entries.len(),
    decreases entries.len(),
{
    if entries.len() == 0 {
        assert(mapping_of(entries).dom() =~= Set::<Seq<char>>::empty());
    } else {
        let front = entries.drop_last();
        let last = entries.last();
        assert forall|i: int, j: int| 0 <= i < j < front.len() implies (#[trigger] front[i]).name@
            != (#[trigger] front[j]).name@ by {
            assert(front[i] == entries[i] && front[j] == entries[j]);
        }
        lemma_mapping_size(front);
        let smaller = mapping_of(front).dom();
        assert(!smaller.contains(last.name@)) by {
            if smaller.contains(last.name@) {
                let i = choose|i: int| names_entry(front, last.name@, i);
                assert(front[i] == entries[i]);
                assert(entries[i].name@ != entries[entries.len() - 1].name@);
            }
        }
        assert(mapping_of(entries).dom() =~= smaller.insert(last.name@)) by {
            assert forall|name: Seq<char>|
                mapping_of(entries).dom().contains(name) <==> smaller.insert(last.name@).contains(
                    name,
                ) by {
                if mapping_of(entries).dom().contains(name) {
                    let i = choose|i: int| names_entry(entries, name, i);
                    if i < front.len() {
                        assert(names_entry(front, name, i));
                    }
                }
                if smaller.contains(name) {
                    let i = choose|i: int| names_entry(front, name, i);
                    assert(names_entry(entries, name, i));
                }
                if name == last.name@ {
                    assert(names_entry(entries, name, entries.len() - 1));
                }
            }
        }
    }
}

/// Whether `after` holds what `before` holds for every name but `name`, and
/// `version` for `name`, given that no name occurs twice in either.
proof fn lemma_mapping_changed(
    before: Seq<Entry>,
    after: Seq<Entry>,
    name: Seq<char>,
    version: Seq<char>,
    at: int,
)
    requires
        names_distinct(before),
        names_distinct(after),
        names_entry(after, name, at),
        after[at].version@ == version,
        forall|k: Seq<char>, i: int|
            k != name && names_entry(before, k, i) ==> names_entry(after, k, i) && after[i].version@
                == before[i].version@,
        forall|k: Seq<char>, i: int| k != name && names_entry(after, k, i) ==> names_entry(before, k, i),
    ensures
        mapping_of(after) == mapping_of(before).insert(name, version),
{
    let wanted = mapping_of(before).insert(name, version);
    assert forall|k: Seq<char>| mapping_of(after).dom().contains(k) <==> wanted.dom().contains(
        k,
    ) by {
        if k != name && mapping_of(after).dom().contains(k) {
            let i = choose|i: int| names_entry(after, k, i);
            assert(names_entry(before, k, i));
        }
        if k != name && mapping_of(before).dom().contains(k) {
            let i = choose|i: int| names_entry(before, k, i);
            assert(names_entry(after, k, i));
        }
    }
    assert forall|k: Seq<char>| mapping_of(after).dom().contains(k) implies mapping_of(after)[k]
        == wanted[k] by {
        let i = choose|i: int| names_entry(after, k, i);
        if k == name {
            assert(i == at);
        } else {
            assert(names_entry(before, k, i));
            let j = choose|j: int| names_entry(before, k, j);
            assert(j == i);
        }
    }
    assert(mapping_of(after) =~= wanted);
}

/// An entry for a name that has none yet adds that name's version and
/// keeps the names distinct.
pub proof fn lemma_mapping_push(entries: Seq<Entry>, entry: Entry)
    requires
        names_distinct(entries),
        forall|i: int| !names_entry(entries, entry.name@, i),
    ensures
        names_distinct(entries.push(entry)),
        mapping_of(entries.push(entry)) == mapping_of(entries).insert(
            entry.name@,
            entry.version@,
        ),
{
    let after = entries.push(entry);
    assert forall|i: int, j: int| 0 <= i < j < after.len() implies (#[trigger] after[i]).name@
        != (#[trigger] after[j]).name@ by {
        if j < entries.len() {
            assert(entries[i].name@ != entries[j].name@);
        } else {
            assert(!names_entry(entries, entry.name@, i));
        }
    }
    lemma_mapping_changed(entries, after, entry.name@, entry.version@, entries.len() as int);
}

/// An entry put in the place of the entry of the same name replaces that
/// name's version and keeps the names distinct.
pub proof fn lemma_mapping_update(entries: Seq<Entry>, at: int, entry: Entry)
    requires
        names_distinct(entries),
        names_entry(entries, entry.name@, at),
    ensures
        names_distinct(entries.update(at, entry)),
        mapping_of(entries.update(at, entry)) == mapping_of(entries).insert(
            entry.name@,
            entry.version@,
        ),
{
    let after = entries.update(at, entry);
    assert forall|i: int, j: int| 0 <= i < j < after.len() implies (#[trigger] after[i]).name@
        != (#[trigger] after[j]).name@ by {
        assert(entries[i].name@ != entries[j].name@);
    }
    lemma_mapping_changed(entries, after, entry.name@, entry.version@, at);
}

/// A mapping from package names to recorded versions.  No name has two
/// entries.
#[derive(Debug)]
pub struct Baseline {
    entries: Vec<Entry>,
}

impl View for Baseline {
    type V = Map<Seq<char>, Seq<char>>;

    closed spec fn view(&self) -> Map<Seq<char>, Seq<char>> {
        mapping_of(self.entries@)
    }
}

impl Baseline {
    /// The invariant of a baseline: no name has two entries.
    pub closed spec fn wf(&self) -> bool {
        names_distinct(self.entries@)
    }

    /// The entries, in the order in which their names were first recorded.
    pub closed spec fn listed(self) -> Seq<Entry> {
        self.entries@
    }

    /// A baseline without entries.
    pub fn new() -> (baseline: Baseline)
        ensures
            baseline.wf(),
            baseline@ == Map::<Seq<char>, Seq<char>>::empty(),
            baseline.listed().len() == 0,
    {
        let baseline = Baseline { entries: Vec::new() };
        assert(baseline@ =~= Map::<Seq<char>, Seq<char>>::empty());
        baseline
    }

    /// The number of names that have a version recorded.
    pub fn len(&self) -> (n: usize)
        requires
            self.wf(),
        ensures
            self@.dom().finite(),
            n == self@.dom().len(),
            n == self.listed().len(),
    {
        proof {
            lemma_mapping_size(self.entries@);
        }
        self.entries.len()
    }

    /// Where the entry of `name` stands among the entries, if it has one.
    fn position(&self, name: &String) -> (r: Option<usize>)
        ensures
            match r {
                Some(i) => names_entry(self.entries@, name@, i as int),
                None => forall|i: int| !names_entry(self.entries@, name@, i),
            },
    {
        let mut i: usize = 0;
        while i < self.entries.len()
            invariant
                forall|j: int| 0 <= j < i ==> !names_entry(self.entries@, name@, j),
            decreases self.entries.len() - i,
        {
            if self.entries[i].name == *name {
                return Some(i);
            }
            i += 1;
        }
        None
    }

    /// The version recorded for `name`, if there is one.
    pub fn get(&self, name: &str) -> (r: Option<&String>)
        requires
            self.wf(),
        ensures
            match r {
                Some(version) => self@.contains_key(name@) && self@[name@] == version@,
                None => !self@.contains_key(name@),
            },
    {
        let key = name.to_string();
        match self.position(&key) {
            Some(i) => {
                proof {
                    let j = choose|j: int| names_entry(self.entries@, name@, j);
                    assert(j == i);
                }
                Some(&self.entries[i].version)
            },
            None => None,
        }
    }

    /// Records `version` for `name`, in place of the version recorded before
    /// if there was one.
    pub fn insert(&mut self, name: &str, version: &str)
        requires
            old(self).wf(),
        ensures
            final(self).wf(),
            final(self)@ == old(self)@.insert(name@, version@),
    {
        let key = name.to_string();
        let ghost before = self.entries@;
        let entry = Entry { name: key, version: version.to_string() };
        match self.position(&entry.name) {
            Some(i) => {
                proof {
                    lemma_mapping_update(before, i as int, entry);
                }
                self.entries.set(i, entry);
            },
            None => {
                proof {
                    lemma_mapping_push(before, entry);
                }
                self.entries.push(entry);
            },
        }
    }

    /// The entries, each name once.
    pub fn entries(&self) -> (entries: &Vec<Entry>)
        requires
            self.wf(),
        ensures
            entries@ == self.listed(),
            names_distinct(entries@),
            mapping_of(entries@) == self@,
    {
        &self.entries
    }
}

} // verus!
