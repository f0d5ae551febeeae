use vstd::prelude::*;
use vstd::hash_map::StringHashMap;
use crate::root_relative_path::RootRelativePath;
use crate::boss_doer_interface::EntryDetails;

verus! {

/// The details last given for a path in a list of entries, if any.
pub open spec fn latest(entries: Seq<(Seq<char>, EntryDetails)>, path: Seq<char>) -> Option<EntryDetails>
    decreases entries.len(),
{
    if entries.len() == 0 {
        None
    } else if entries.last().0 == path {
        Some(entries.last().1)
    } else {
        latest(entries.drop_last(), path)
    }
}

/// A list of paths with the details of each entry, which keeps the order in which they were
/// added and has fast lookup from path to details.
/// It is held as a list together with a hash map, kept in sync.
pub struct EntriesList {
    vec: Vec<(RootRelativePath, EntryDetails)>,
    map: StringHashMap<EntryDetails>,
}

impl EntriesList {
    /// The entries in the order they were added.
    pub closed spec fn entries(&self) -> Seq<(Seq<char>, EntryDetails)> {
        self.vec@.map_values(|e: (RootRelativePath, EntryDetails)| (e.0@, e.1))
    }

    /// Well-formedness: the map holds, for each path, the details it was last added with.
    pub closed spec fn wf(&self) -> bool {
        forall|p: Seq<char>| #![trigger self.map@.contains_key(p)]
            (self.map@.contains_key(p) <==> latest(self.entries(), p) is Some)
            && (self.map@.contains_key(p) ==> latest(self.entries(), p) == Some(self.map@[p]))
    }

    /// An empty list.
    pub fn new() -> (r: EntriesList)
        ensures
            r.wf(),
            r.entries() == Seq::<(Seq<char>, EntryDetails)>::empty(),
    {
        let r = EntriesList { vec: Vec::new(), map: StringHashMap::new() };
        assert(r.entries() =~= Seq::<(Seq<char>, EntryDetails)>::empty());
        r
    }

    /// Appends an entry.
    pub fn add(&mut self, path: RootRelativePath, entry: EntryDetails)
        requires
            old(self).wf(),
        ensures
            final(self).wf(),
            final(self).entries() == old(self).entries().push((path@, entry)),
    {
        let key = String::from_str(path.as_str());
        let copy = entry.duplicate();
        self.vec.push((path, entry));
        self.map.insert(key, copy);
        assert(self.entries() =~= old(self).entries().push((path@, entry)));
        assert(self.entries().drop_last() =~= old(self).entries());
        assert forall|p: Seq<char>| #![trigger self.map@.contains_key(p)]
            (self.map@.contains_key(p) <==> latest(self.entries(), p) is Some)
            && (self.map@.contains_key(p) ==> latest(self.entries(), p) == Some(self.map@[p])) by {
            if p != path@ {
                assert(old(self).map@.contains_key(p) == self.map@.contains_key(p));
            }
        }
    }

    /// The number of entries.
    pub fn len(&self) -> (r: usize)
        ensures
            r == self.entries().len(),
    {
        self.vec.len()
    }

    /// The entries in the order they were added.
    pub fn iter(&self) -> (r: &[(RootRelativePath, EntryDetails)])
        ensures
            r@.map_values(|e: (RootRelativePath, EntryDetails)| (e.0@, e.1)) == self.entries(),
    {
        self.vec.as_slice()
    }

    /// The details last added for a path.
    pub fn lookup(&self, p: &RootRelativePath) -> (r: Option<&EntryDetails>)
        requires
            self.wf(),
        ensures
            match r {
                Some(e) => latest(self.entries(), p@) == Some(*e),
                None => latest(self.entries(), p@) is None,
            },
    {
        let r = self.map.get(p.as_str());
        assert(self.map@.contains_key(p@) ==> latest(self.entries(), p@) == Some(self.map@[p@]));
        r
    }
}

} // verus!
