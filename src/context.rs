use vstd::prelude::*;
use crate::value::{Value, ValueModel, model_of};

verus! {

/// Shared data of one request, keyed by name. Entries are only ever added:
/// a later resolver reads what an earlier one put, and cannot replace or
/// remove it.
pub struct DataBag {
    entries: Vec<(String, Value)>,
}

pub open spec fn bag_lookup(entries: Seq<(Seq<char>, ValueModel)>, key: Seq<char>) -> Option<ValueModel>
    decreases entries.len(),
{
    if entries.len() == 0 {
        None
    } else if entries[0].0 == key {
        Some(entries[0].1)
    } else {
        bag_lookup(entries.drop_first(), key)
    }
}

pub open spec fn missing_data_message() -> Seq<char> {
    "missing required context data"@
}

impl DataBag {
    /// The entries, in insertion order.
    pub closed spec fn entries(&self) -> Seq<(Seq<char>, ValueModel)> {
        self.entries@.map_values(|e: (String, Value)| (e.0@, model_of(e.1)))
    }

    pub open spec fn contains(&self, key: Seq<char>) -> bool {
        bag_lookup(self.entries(), key) is Some
    }

    pub fn new() -> (r: DataBag)
        ensures
            r.entries().len() == 0,
    {
        DataBag { entries: Vec::new() }
    }

    fn position(&self, key: &String) -> (r: Option<usize>)
        ensures
            r is Some ==> r->Some_0 < self.entries().len() && bag_lookup(self.entries(), key@) == Some(
                self.entries()[r->Some_0 as int].1,
            ),
            r is None ==> bag_lookup(self.entries(), key@) is None,
    {
        let ghost m = self.entries();
        let mut i: usize = 0;
        assert(m.subrange(0, m.len() as int) =~= m);
        while i < self.entries.len()
            invariant
                m == self.entries(),
                m.len() == self.entries.len(),
                i <= self.entries.len(),
                bag_lookup(m, key@) == bag_lookup(m.subrange(i as int, m.len() as int), key@),
            decreases self.entries.len() - i,
        {
            assert(m.subrange(i as int, m.len() as int).drop_first() =~= m.subrange(i + 1, m.len() as int));
            assert(m.subrange(i as int, m.len() as int)[0] == m[i as int]);
            if self.entries[i].0 == *key {
                return Some(i);
            }
            i = i + 1;
        }
        None
    }

    /// Adds an entry under `key`. An existing entry is kept as it was, and
    /// false is returned.
    pub fn insert(&mut self, key: String, value: Value) -> (r: bool)
        ensures
            r == !old(self).contains(key@),
            r ==> final(self).entries() == old(self).entries().push((key@, value.model())),
            !r ==> final(self).entries() == old(self).entries(),
    {
        match self.position(&key) {
            Some(_) => false,
            None => {
                let ghost before = self.entries@;
                let ghost km = key@;
                let ghost vm = value.model();
                self.entries.push((key, value));
                assert(self.entries() =~= before.map_values(|e: (String, Value)| (e.0@, model_of(e.1))).push((km, vm)));
                true
            },
        }
    }

    /// The entry under `key`; a miss is an error for the resolver that asked.
    pub fn get(&self, key: &String) -> (r: Result<&Value, String>)
        ensures
            r is Ok <==> self.contains(key@),
            r is Ok ==> Some(r->Ok_0.model()) == bag_lookup(self.entries(), key@),
            r is Err ==> r->Err_0@ == missing_data_message(),
    {
        match self.position(key) {
            Some(i) => Ok(&self.entries[i].1),
            None => Err("missing required context data".to_owned()),
        }
    }
}

/// An inserted entry stays readable, with the value it was inserted with,
/// through any later insertions.
pub proof fn lemma_insert_keeps_entries(entries: Seq<(Seq<char>, ValueModel)>, key: Seq<char>, entry: (Seq<char>, ValueModel))
    requires
        bag_lookup(entries, key) is Some,
    ensures
        bag_lookup(entries.push(entry), key) == bag_lookup(entries, key),
    decreases entries.len(),
{
    if entries[0].0 != key {
        assert(entries.push(entry).drop_first() =~= entries.drop_first().push(entry));
        lemma_insert_keeps_entries(entries.drop_first(), key, entry);
    }
}

/// Advisory caching for a response: whether it may be shared, and for how
/// many seconds it may be cached.
#[derive(PartialEq, Eq, Structural, Clone, Copy, Debug)]
pub struct CacheControl {
    pub public: bool,
    pub max_age: u64,
}

impl CacheControl {
    /// The stricter of two hints: the lower age, and private if either is.
    pub fn merge(&self, other: &CacheControl) -> (r: CacheControl)
        ensures
            r.public == (self.public && other.public),
            r.max_age == if self.max_age <= other.max_age { self.max_age } else { other.max_age },
    {
        CacheControl {
            public: self.public && other.public,
            max_age: if self.max_age <= other.max_age { self.max_age } else { other.max_age },
        }
    }
}

/// The hint for a whole response: the strictest of the hints of its parts,
/// starting from `base`.
pub fn aggregate_cache_control(base: CacheControl, hints: &Vec<CacheControl>) -> (r: CacheControl)
    ensures
        r.max_age <= base.max_age,
        r.public ==> base.public,
        forall|i: int| 0 <= i < hints.len() ==> r.max_age <= (#[trigger] hints[i]).max_age && (r.public ==> hints[i].public),
        r.max_age == base.max_age || exists|i: int| 0 <= i < hints.len() && r.max_age == (#[trigger] hints[i]).max_age,
        r.public == (base.public && forall|i: int| 0 <= i < hints.len() ==> (#[trigger] hints[i]).public),
{
    let mut acc = base;
    let mut i: usize = 0;
    while i < hints.len()
        invariant
            i <= hints.len(),
            acc.max_age <= base.max_age,
            forall|k: int| 0 <= k < i ==> acc.max_age <= (#[trigger] hints[k]).max_age,
            acc.max_age == base.max_age || exists|k: int| 0 <= k < i && acc.max_age == (#[trigger] hints[k]).max_age,
            acc.public == (base.public && forall|k: int| 0 <= k < i ==> (#[trigger] hints[k]).public),
        decreases hints.len() - i,
    {
        acc = acc.merge(&hints[i]);
        i = i + 1;
    }
    acc
}

} // verus!
