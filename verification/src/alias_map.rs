//! The accumulated alias map: entries of alias name and target path, with
//! unique names and last-write-wins insertion.

use vstd::prelude::*;
use crate::text::str_eq;

verus! {

/// One alias entry: a name and the path it navigates to.
#[derive(Debug)]
pub struct Entry {
    pub name: String,
    pub path: String,
}

/// The mathematical contents of a sequence of entries: later entries
/// override earlier ones of the same name.
pub open spec fn as_map(s: Seq<Entry>) -> Map<Seq<char>, Seq<char>>
    decreases s.len(),
{
    if s.len() == 0 {
        Map::empty()
    } else {
        as_map(s.drop_last()).insert(s.last().name@, s.last().path@)
    }
}

/// A mapping from alias name to target path, stored as a vector of
/// entries whose names are pairwise distinct.
#[derive(Debug)]
pub struct AliasMap {
    pub entries: Vec<Entry>,
}

impl View for AliasMap {
    type V = Map<Seq<char>, Seq<char>>;

    open spec fn view(&self) -> Map<Seq<char>, Seq<char>> {
        as_map(self.entries@)
    }
}

/// Pairwise distinct entry names.
pub open spec fn distinct_names(s: Seq<Entry>) -> bool {
    forall|i: int, j: int| 0 <= i < j < s.len() ==> s[i].name@ != s[j].name@
}

/// A key is in the contents exactly when some entry carries it.
pub proof fn lemma_as_map_contains(s: Seq<Entry>, k: Seq<char>)
    ensures
        as_map(s).contains_key(k) <==> exists|i: int| 0 <= i < s.len() && s[i].name@ == k,
    decreases s.len(),
{
    if s.len() > 0 {
        lemma_as_map_contains(s.drop_last(), k);
        if as_map(s).contains_key(k) {
            if s.last().name@ != k {
                let i = choose|i: int| 0 <= i < s.drop_last().len() && s.drop_last()[i].name@ == k;
                assert(s[i].name@ == k);
            }
        }
        if exists|i: int| 0 <= i < s.len() && s[i].name@ == k {
            let i = choose|i: int| 0 <= i < s.len() && s[i].name@ == k;
            if i < s.len() - 1 {
                assert(s.drop_last()[i].name@ == k);
            }
        }
    }
}

/// An entry with no later entry of the same name gives the contents at
/// its name.
pub proof fn lemma_as_map_index(s: Seq<Entry>, i: int)
    requires
        0 <= i < s.len(),
        forall|j: int| i < j < s.len() ==> s[j].name@ != s[i].name@,
    ensures
        as_map(s).contains_key(s[i].name@),
        as_map(s)[s[i].name@] == s[i].path@,
    decreases s.len(),
{
    if i == s.len() - 1 {
    } else {
        assert(forall|j: int|
            i < j < s.drop_last().len() ==> s.drop_last()[j].name@ != s.drop_last()[i].name@);
        lemma_as_map_index(s.drop_last(), i);
    }
}

/// With distinct names the contents are finite and hold one pair per
/// entry.
pub proof fn lemma_as_map_len(s: Seq<Entry>)
    requires
        distinct_names(s),
    ensures
        as_map(s).dom().finite(),
        as_map(s).len() == s.len(),
    decreases s.len(),
{
    broadcast use vstd::set::axiom_set_insert_len;

    if s.len() > 0 {
        assert(distinct_names(s.drop_last()));
        lemma_as_map_len(s.drop_last());
        lemma_as_map_contains(s.drop_last(), s.last().name@);
        assert(!as_map(s.drop_last()).contains_key(s.last().name@));
    }
}

/// Replacing the entry at `i` by one of the same name updates the
/// contents at that name.
pub proof fn lemma_as_map_update(s: Seq<Entry>, i: int, e: Entry)
    requires
        distinct_names(s),
        0 <= i < s.len(),
        e.name@ == s[i].name@,
    ensures
        as_map(s.update(i, e)) == as_map(s).insert(e.name@, e.path@),
    decreases s.len(),
{
    let t = s.update(i, e);
    if i == s.len() - 1 {
        assert(t.drop_last() =~= s.drop_last());
        assert(t.last() == e);
        assert(as_map(s).insert(e.name@, e.path@) =~= as_map(s.drop_last()).insert(
            e.name@,
            e.path@,
        ));
    } else {
        assert(distinct_names(s.drop_last()));
        assert(t.drop_last() =~= s.drop_last().update(i, e));
        assert(t.last() == s.last());
        lemma_as_map_update(s.drop_last(), i, e);
        assert(e.name@ != s.last().name@);
        assert(as_map(s.drop_last()).insert(e.name@, e.path@).insert(s.last().name@, s.last().path@)
            =~= as_map(s.drop_last()).insert(s.last().name@, s.last().path@).insert(
            e.name@,
            e.path@,
        ));
    }
}

impl AliasMap {
    /// Entry names are pairwise distinct.
    pub open spec fn wf(&self) -> bool {
        distinct_names(self.entries@)
    }

    /// An empty alias map.
    pub fn new() -> (r: AliasMap)
        ensures
            r.wf(),
            r@ == Map::<Seq<char>, Seq<char>>::empty(),
            r.entries@.len() == 0,
    {
        AliasMap { entries: Vec::new() }
    }

    /// The number of aliases held.
    pub fn len(&self) -> (r: usize)
        requires
            self.wf(),
        ensures
            r == self@.len(),
            r == self.entries@.len(),
    {
        proof {
            lemma_as_map_len(self.entries@);
        }
        self.entries.len()
    }

    /// Whether no alias is held.
    pub fn is_empty(&self) -> (r: bool)
        requires
            self.wf(),
        ensures
            r == (self@.len() == 0),
    {
        proof {
            lemma_as_map_len(self.entries@);
        }
        self.entries.len() == 0
    }

    /// The path stored under `name`, if any.
    pub fn get(&self, name: &str) -> (r: Option<&String>)
        requires
            self.wf(),
        ensures
            match r {
                Some(p) => self@.contains_key(name@) && p@ == self@[name@],
                None => !self@.contains_key(name@),
            },
    {
        let n = self.entries.len();
        let mut i: usize = 0;
        while i < n
            invariant
                n == self.entries@.len(),
                0 <= i <= n,
                self.wf(),
                forall|j: int| 0 <= j < i ==> self.entries@[j].name@ != name@,
            decreases n - i,
        {
            if str_eq(self.entries[i].name.as_str(), name) {
                proof {
                    lemma_as_map_index(self.entries@, i as int);
                }
                return Some(&self.entries[i].path);
            }
            i = i + 1;
        }
        proof {
            lemma_as_map_contains(self.entries@, name@);
        }
        None
    }

    /// Stores `path` under `name`, overwriting and returning any path
    /// previously stored under the same name.
    pub fn insert(&mut self, name: String, path: String) -> (prev: Option<String>)
        requires
            old(self).wf(),
        ensures
            final(self).wf(),
            final(self)@ == old(self)@.insert(name@, path@),
            match prev {
                Some(p) => old(self)@.contains_key(name@) && p@ == old(self)@[name@],
                None => !old(self)@.contains_key(name@),
            },
    {
        let n = self.entries.len();
        let mut i: usize = 0;
        while i < n
            invariant
                *self == *old(self),
                n == self.entries@.len(),
                0 <= i <= n,
                self.wf(),
                forall|j: int| 0 <= j < i ==> self.entries@[j].name@ != name@,
            decreases n - i,
        {
            if str_eq(self.entries[i].name.as_str(), name.as_str()) {
                let prev_path = self.entries[i].path.clone();
                proof {
                    lemma_as_map_index(self.entries@, i as int);
                    lemma_as_map_update(self.entries@, i as int, Entry { name, path });
                }
                self.entries.set(i, Entry { name, path });
                return Some(prev_path);
            }
            i = i + 1;
        }
        proof {
            lemma_as_map_contains(self.entries@, name@);
            assert(self.entries@.push(Entry { name, path }).drop_last() =~= self.entries@);
        }
        self.entries.push(Entry { name, path });
        None
    }

    /// A copy of this alias map with the same contents.
    pub fn duplicate(&self) -> (r: AliasMap)
        requires
            self.wf(),
        ensures
            r.wf(),
            r@ == self@,
    {
        let n = self.entries.len();
        let mut out: Vec<Entry> = Vec::new();
        let mut i: usize = 0;
        while i < n
            invariant
                n == self.entries@.len(),
                0 <= i <= n,
                out@.len() == i,
                forall|j: int| 0 <= j < i ==> out@[j].name@ == self.entries@[j].name@
                    && out@[j].path@ == self.entries@[j].path@,
            decreases n - i,
        {
            let name = self.entries[i].name.clone();
            let path = self.entries[i].path.clone();
            out.push(Entry { name, path });
            i = i + 1;
        }
        proof {
            lemma_as_map_congruent(out@, self.entries@);
        }
        AliasMap { entries: out }
    }

    /// The entry at position `i`: its name and its path, which the
    /// contents hold as a pair.
    pub fn pair_at(&self, i: usize) -> (r: (&String, &String))
        requires
            self.wf(),
            i < self.entries@.len(),
        ensures
            self@.contains_key(r.0@),
            self@[r.0@] == r.1@,
    {
        proof {
            lemma_as_map_index(self.entries@, i as int);
        }
        (&self.entries[i].name, &self.entries[i].path)
    }
}

/// Entry sequences with equal names and paths have equal contents.
pub proof fn lemma_as_map_congruent(a: Seq<Entry>, b: Seq<Entry>)
    requires
        a.len() == b.len(),
        forall|j: int| 0 <= j < a.len() ==> a[j].name@ == b[j].name@ && a[j].path@ == b[j].path@,
    ensures
        as_map(a) == as_map(b),
        distinct_names(b) ==> distinct_names(a),
    decreases a.len(),
{
    if a.len() > 0 {
        lemma_as_map_congruent(a.drop_last(), b.drop_last());
        assert(as_map(a) =~= as_map(b));
    }
}

} // verus!
