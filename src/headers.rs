//! A header table: header names mapped to raw values, where inserting a
//! name that is already present replaces its value.
use vstd::prelude::*;

verus! {

/// The mapping that a list of (name, value) entries denotes, later entries
/// taking precedence.
pub open spec fn entries_map(e: Seq<(String, String)>) -> Map<Seq<char>, Seq<char>>
    decreases e.len(),
{
    if e.len() == 0 {
        Map::empty()
    } else {
        entries_map(e.drop_last()).insert(e.last().0@, e.last().1@)
    }
}

/// No name occurs twice among the entries.
pub open spec fn distinct_names(e: Seq<(String, String)>) -> bool {
    forall|i: int, j: int| 0 <= i < j < e.len() ==> e[i].0@ != e[j].0@
}

proof fn lemma_entries_map_lookup(e: Seq<(String, String)>, i: int)
    requires
        distinct_names(e),
        0 <= i < e.len(),
    ensures
        entries_map(e).contains_key(e[i].0@),
        entries_map(e)[e[i].0@] == e[i].1@,
    decreases e.len(),
{
    if i < e.len() - 1 {
        lemma_entries_map_lookup(e.drop_last(), i);
    }
}

proof fn lemma_entries_map_absent(e: Seq<(String, String)>, k: Seq<char>)
    requires
        forall|i: int| 0 <= i < e.len() ==> e[i].0@ != k,
    ensures
        !entries_map(e).contains_key(k),
    decreases e.len(),
{
    if e.len() > 0 {
        lemma_entries_map_absent(e.drop_last(), k);
    }
}

proof fn lemma_entries_map_update(e: Seq<(String, String)>, i: int, k: String, v: String)
    requires
        distinct_names(e),
        0 <= i < e.len(),
        k@ == e[i].0@,
    ensures
        entries_map(e.update(i, (k, v))) == entries_map(e).insert(k@, v@),
        distinct_names(e.update(i, (k, v))),
    decreases e.len(),
{
    let f = e.update(i, (k, v));
    if i == e.len() - 1 {
        assert(f.drop_last() =~= e.drop_last());
        assert(entries_map(f) =~= entries_map(e).insert(e[i].0@, v@));
    } else {
        assert(f.drop_last() =~= e.drop_last().update(i, (k, v)));
        lemma_entries_map_update(e.drop_last(), i, k, v);
        assert(entries_map(f) =~= entries_map(e).insert(e[i].0@, v@));
    }
}

/// Header names and their raw values; names are case-sensitive.
#[derive(Debug)]
pub struct Headers {
    entries: Vec<(String, String)>,
}

impl View for Headers {
    type V = Map<Seq<char>, Seq<char>>;

    closed spec fn view(&self) -> Map<Seq<char>, Seq<char>> {
        entries_map(self.entries@)
    }
}

impl Headers {
    /// The table is well formed: each name is stored once.
    pub closed spec fn wf(&self) -> bool {
        distinct_names(self.entries@)
    }

    /// An empty table.
    pub fn new() -> (r: Headers)
        ensures
            r.wf(),
            r@ == Map::<Seq<char>, Seq<char>>::empty(),
    {
        Headers { entries: Vec::new() }
    }

    /// Stores `value` under `name`, replacing any value stored there before.
    pub fn insert(&mut self, name: String, value: String)
        requires
            old(self).wf(),
        ensures
            final(self).wf(),
            final(self)@ == old(self)@.insert(name@, value@),
    {
        let n = self.entries.len();
        let mut i: usize = 0;
        while i < n
            invariant
                n == self.entries@.len(),
                i <= n,
                self.wf(),
                self.entries@ == old(self).entries@,
                forall|j: int| 0 <= j < i ==> self.entries@[j].0@ != name@,
            decreases n - i,
        {
            if self.entries[i].0 == name {
                proof {
                        lemma_entries_map_update(self.entries@, i as int, name, value);
                }
                let ghost e = self.entries@;
                let ghost pair = (name, value);
                self.entries[i] = (name, value);
                assert(self.entries@ =~= e.update(i as int, pair));
                return;
            }
            i = i + 1;
        }
        let ghost e = self.entries@;
        self.entries.push((name, value));
        assert(self.entries@.drop_last() =~= e);
    }

    /// The value stored under `name`, if any.
    pub fn get(&self, name: &str) -> (r: Option<&String>)
        requires
            self.wf(),
        ensures
            match r {
                Some(v) => self@.contains_key(name@) && self@[name@] == v@,
                None => !self@.contains_key(name@),
            },
    {
        let wanted = name.to_owned();
        let n = self.entries.len();
        let mut i: usize = 0;
        while i < n
            invariant
                n == self.entries@.len(),
                i <= n,
                self.wf(),
                wanted@ == name@,
                forall|j: int| 0 <= j < i ==> self.entries@[j].0@ != name@,
            decreases n - i,
        {
            if self.entries[i].0 == wanted {
                proof {
                    lemma_entries_map_lookup(self.entries@, i as int);
                }
                return Some(&self.entries[i].1);
            }
            i = i + 1;
        }
        proof {
            lemma_entries_map_absent(self.entries@, name@);
        }
        None
    }

    /// The number of names stored.
    pub fn len(&self) -> (r: usize)
        requires
            self.wf(),
        ensures
            r == self@.len(),
    {
        proof {
            lemma_distinct_len(self.entries@);
        }
        self.entries.len()
    }
}

proof fn lemma_distinct_len(e: Seq<(String, String)>)
    requires
        distinct_names(e),
    ensures
        entries_map(e).len() == e.len(),
        entries_map(e).dom().finite(),
    decreases e.len(),
{
    if e.len() > 0 {
        let d = e.drop_last();
        lemma_distinct_len(d);
        lemma_entries_map_absent(d, e.last().0@);
    }
}

} // verus!
