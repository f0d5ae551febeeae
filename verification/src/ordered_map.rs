use vstd::prelude::*;
use vstd::hash_map::StringHashMap;
use crate::root_relative_path::RootRelativePath;

verus! {

/// A list of paths with a value for each, which keeps the order in which the paths were added
/// and has fast lookup from path to value. Each path is listed once, where it was last added.
/// It is held as a list of paths together with two hash maps, kept in sync: one gives the value
/// of each path, the other the place in the list where the path was last added. A removal only
/// touches the maps, and iteration skips the places that no longer hold a path in the maps.
#[verifier::reject_recursive_types(V)]
pub struct OrderedMap<V> {
    vec: Vec<RootRelativePath>,
    pos: StringHashMap<usize>,
    map: StringHashMap<V>,
}

/// The paths of a list that are live: those at the place that `pos` records for them, in order,
/// among the first `n` places.
pub open spec fn live_keys(v: Seq<Seq<char>>, pos: Map<Seq<char>, usize>, n: int) -> Seq<Seq<char>>
    decreases n,
{
    if n <= 0 {
        Seq::empty()
    } else {
        let rest = live_keys(v, pos, n - 1);
        let k = v[n - 1];
        if pos.contains_key(k) && pos[k] == n - 1 {
            rest.push(k)
        } else {
            rest
        }
    }
}

/// A sequence of keys with every occurrence of `k` left out.
pub open spec fn without(s: Seq<Seq<char>>, k: Seq<char>) -> Seq<Seq<char>>
    decreases s.len(),
{
    if s.len() == 0 {
        s
    } else if s.last() == k {
        without(s.drop_last(), k)
    } else {
        without(s.drop_last(), k).push(s.last())
    }
}

/// A sequence of keys with only the keys of a set kept, in order.
pub open spec fn keys_in(s: Seq<Seq<char>>, d: Set<Seq<char>>) -> Seq<Seq<char>>
    decreases s.len(),
{
    if s.len() == 0 {
        s
    } else if d.contains(s.last()) {
        keys_in(s.drop_last(), d).push(s.last())
    } else {
        keys_in(s.drop_last(), d)
    }
}

/// Keeping the keys of a set, then leaving one out, keeps the keys of the set without it.
pub proof fn lemma_keys_in_remove(s: Seq<Seq<char>>, d: Set<Seq<char>>, k: Seq<char>)
    ensures
        without(keys_in(s, d), k) == keys_in(s, d.remove(k)),
    decreases s.len(),
{
    if s.len() > 0 {
        lemma_keys_in_remove(s.drop_last(), d, k);
        let r = keys_in(s.drop_last(), d);
        if d.contains(s.last()) {
            assert(r.push(s.last()).drop_last() =~= r);
        }
    }
}

/// Keeping the keys of two sets that agree on the elements of a sequence keeps the same keys.
pub proof fn lemma_keys_in_agree(s: Seq<Seq<char>>, d1: Set<Seq<char>>, d2: Set<Seq<char>>)
    requires
        forall|i: int| 0 <= i < s.len() ==> (d1.contains(#[trigger] s[i]) <==> d2.contains(s[i])),
    ensures
        keys_in(s, d1) == keys_in(s, d2),
    decreases s.len(),
{
    if s.len() > 0 {
        assert forall|i: int| 0 <= i < s.drop_last().len() implies (d1.contains(#[trigger] s.drop_last()[i])
            <==> d2.contains(s.drop_last()[i])) by {
            assert(s.drop_last()[i] == s[i]);
        }
        lemma_keys_in_agree(s.drop_last(), d1, d2);
        assert(s.last() == s[s.len() - 1]);
    }
}

/// Keeping the keys of a set from a sequence one longer keeps them from the shorter one, and
/// the last key if the set holds it.
pub proof fn lemma_keys_in_push(s: Seq<Seq<char>>, d: Set<Seq<char>>, k: Seq<char>)
    ensures
        keys_in(s.push(k), d) == (if d.contains(k) { keys_in(s, d).push(k) } else { keys_in(s, d) }),
{
    assert(s.push(k).drop_last() =~= s);
}

/// Keeping the keys of a set that holds every key of a sequence keeps the whole sequence.
pub proof fn lemma_keys_in_all(s: Seq<Seq<char>>, d: Set<Seq<char>>)
    requires
        forall|i: int| 0 <= i < s.len() ==> d.contains(#[trigger] s[i]),
    ensures
        keys_in(s, d) == s,
    decreases s.len(),
{
    if s.len() > 0 {
        assert forall|i: int| 0 <= i < s.drop_last().len() implies d.contains(#[trigger] s.drop_last()[i]) by {
            assert(s.drop_last()[i] == s[i]);
        }
        lemma_keys_in_all(s.drop_last(), d);
        assert(s.last() == s[s.len() - 1]);
        assert(s.drop_last().push(s.last()) =~= s);
    }
}

/// A sequence that lacks a key is the same with it left out.
pub proof fn lemma_without_absent(s: Seq<Seq<char>>, k: Seq<char>)
    requires
        !s.contains(k),
    ensures
        without(s, k) == s,
    decreases s.len(),
{
    if s.len() > 0 {
        assert(!s.drop_last().contains(k)) by {
            if s.drop_last().contains(k) {
                let i = choose|i: int| 0 <= i < s.drop_last().len() && s.drop_last()[i] == k;
                assert(s[i] == k);
            }
        }
        lemma_without_absent(s.drop_last(), k);
        assert(s.last() == s[s.len() - 1]);
        assert(s.drop_last().push(s.last()) =~= s);
    }
}

/// Every live path sits at the place recorded for it, none is listed twice, and every path
/// recorded at its own place is listed.
proof fn lemma_live_keys(v: Seq<Seq<char>>, pos: Map<Seq<char>, usize>, n: int)
    requires
        0 <= n <= v.len(),
    ensures
        forall|j: int| 0 <= j < live_keys(v, pos, n).len() ==> pos.contains_key(#[trigger] live_keys(v, pos, n)[j])
            && pos[live_keys(v, pos, n)[j]] < n && v[pos[live_keys(v, pos, n)[j]] as int] == live_keys(v, pos, n)[j],
        live_keys(v, pos, n).no_duplicates(),
        forall|k: Seq<char>| pos.contains_key(k) && pos[k] < n && v[pos[k] as int] == k
            ==> #[trigger] live_keys(v, pos, n).contains(k),
    decreases n,
{
    if n > 0 {
        lemma_live_keys(v, pos, n - 1);
        let r = live_keys(v, pos, n - 1);
        let k = v[n - 1];
        if pos.contains_key(k) && pos[k] == n - 1 {
            let l = r.push(k);
            assert forall|j: int| 0 <= j < l.len() implies pos.contains_key(#[trigger] l[j]) && pos[l[j]] < n
                && v[pos[l[j]] as int] == l[j] by {
                if j < r.len() {
                    assert(l[j] == r[j]);
                }
            }
            assert forall|a: int, b: int| 0 <= a < l.len() && 0 <= b < l.len() && a != b implies l[a] != l[b] by {
                if a < r.len() && b < r.len() {
                    assert(l[a] == r[a] && l[b] == r[b]);
                } else if a < r.len() {
                    assert(l[a] == r[a]);
                    assert(pos[r[a]] < n - 1);
                } else if b < r.len() {
                    assert(l[b] == r[b]);
                    assert(pos[r[b]] < n - 1);
                }
            }
            assert forall|x: Seq<char>| pos.contains_key(x) && pos[x] < n && v[pos[x] as int] == x
                implies #[trigger] l.contains(x) by {
                if pos[x] == n - 1 {
                    assert(l[r.len() as int] == x);
                } else {
                    assert(r.contains(x));
                    let j = choose|j: int| 0 <= j < r.len() && r[j] == x;
                    assert(l[j] == x);
                }
            }
        } else {
            assert forall|x: Seq<char>| pos.contains_key(x) && pos[x] < n && v[pos[x] as int] == x
                implies #[trigger] r.contains(x) by {
                assert(pos[x] != n - 1);
            }
        }
    }
}

/// The live paths depend only on the first `n` places of the list.
proof fn lemma_live_keys_prefix(v1: Seq<Seq<char>>, v2: Seq<Seq<char>>, pos: Map<Seq<char>, usize>, n: int)
    requires
        0 <= n <= v1.len(),
        n <= v2.len(),
        forall|i: int| 0 <= i < n ==> v1[i] == v2[i],
    ensures
        live_keys(v1, pos, n) == live_keys(v2, pos, n),
    decreases n,
{
    if n > 0 {
        lemma_live_keys_prefix(v1, v2, pos, n - 1);
        assert(v1[n - 1] == v2[n - 1]);
    }
}

/// Changing or dropping the place recorded for one path, to none or to one beyond the first `n`
/// places, leaves that path out of the live paths and keeps the others.
proof fn lemma_live_keys_change(v: Seq<Seq<char>>, pos: Map<Seq<char>, usize>, pos2: Map<Seq<char>, usize>,
    n: int, k: Seq<char>)
    requires
        0 <= n <= v.len(),
        forall|x: Seq<char>| x != k ==> (#[trigger] pos2.contains_key(x) <==> pos.contains_key(x)),
        forall|x: Seq<char>| x != k && pos.contains_key(x) ==> #[trigger] pos2[x] == pos[x],
        pos2.contains_key(k) ==> pos2[k] >= n,
    ensures
        live_keys(v, pos2, n) == without(live_keys(v, pos, n), k),
    decreases n,
{
    if n > 0 {
        lemma_live_keys_change(v, pos, pos2, n - 1, k);
        let r = live_keys(v, pos, n - 1);
        let x = v[n - 1];
        if pos.contains_key(x) && pos[x] == n - 1 {
            assert(r.push(x).drop_last() =~= r);
        }
    }
}

/// Where every one of the first `n` places holds a path recorded at that place, all of them are
/// live.
proof fn lemma_live_keys_all(v: Seq<Seq<char>>, pos: Map<Seq<char>, usize>, n: int)
    requires
        0 <= n <= v.len(),
        forall|j: int| 0 <= j < n ==> pos.contains_key(#[trigger] v[j]) && pos[v[j]] == j,
    ensures
        live_keys(v, pos, n) == v.take(n),
    decreases n,
{
    if n > 0 {
        lemma_live_keys_all(v, pos, n - 1);
        assert(v[n - 1] == v[n - 1]);
        assert(v.take(n - 1).push(v[n - 1]) =~= v.take(n));
    }
}

impl<V> OrderedMap<V> {
    /// The list of places, as paths.
    pub closed spec fn places(&self) -> Seq<Seq<char>> {
        self.vec@.map_values(|k: RootRelativePath| k@)
    }

    /// The keys in iteration order: each key of the map once, where it was last added.
    pub closed spec fn order(&self) -> Seq<Seq<char>> {
        live_keys(self.places(), self.pos@, self.vec@.len() as int)
    }

    /// The contents of the map.
    pub closed spec fn map(&self) -> Map<Seq<char>, V> {
        self.map@
    }

    /// The entries in iteration order.
    pub open spec fn entries(&self) -> Seq<(Seq<char>, V)> {
        self.order().map_values(|k: Seq<char>| (k, self.map()[k]))
    }

    /// The two maps hold the same keys, and the place recorded for each key holds that key.
    pub closed spec fn inner_wf(&self) -> bool {
        &&& self.map@.dom().finite()
        &&& self.pos@.dom() == self.map@.dom()
        &&& forall|k: Seq<char>| #[trigger] self.pos@.contains_key(k) ==> self.pos@[k] < self.vec@.len()
            && self.places()[self.pos@[k] as int] == k
    }

    /// Well-formedness: the map is finite, and the order lists each of its keys exactly once and
    /// nothing else.
    pub open spec fn wf(&self) -> bool {
        &&& self.inner_wf()
        &&& self.map().dom().finite()
        &&& self.order().no_duplicates()
        &&& forall|k: Seq<char>| #[trigger] self.map().contains_key(k) <==> self.order().contains(k)
    }

    proof fn lemma_wf(&self)
        requires
            self.inner_wf(),
        ensures
            self.wf(),
    {
        lemma_live_keys(self.places(), self.pos@, self.vec@.len() as int);
        assert forall|k: Seq<char>| #[trigger] self.map().contains_key(k) <==> self.order().contains(k) by {
            if self.order().contains(k) {
                let j = choose|j: int| 0 <= j < self.order().len() && self.order()[j] == k;
                assert(self.pos@.contains_key(self.order()[j]));
            }
            if self.map().contains_key(k) {
                assert(self.pos@.contains_key(k));
            }
        }
    }

    /// An empty map.
    pub fn new() -> (r: OrderedMap<V>)
        ensures
            r.wf(),
            r.map() == Map::<Seq<char>, V>::empty(),
            r.order() == Seq::<Seq<char>>::empty(),
    {
        let r = OrderedMap { vec: Vec::new(), pos: StringHashMap::new(), map: StringHashMap::new() };
        assert(r.pos@.dom() =~= r.map@.dom());
        proof { r.lemma_wf(); }
        r
    }

    /// Adds (or replaces) the value for a key, which moves to the end of the order.
    pub fn add(&mut self, k: RootRelativePath, v: V)
        requires
            old(self).wf(),
        ensures
            final(self).wf(),
            final(self).map() == old(self).map().insert(k@, v),
            final(self).order() == without(old(self).order(), k@).push(k@),
            !old(self).map().contains_key(k@) ==> final(self).order() == old(self).order().push(k@),
    {
        let ghost old_places = self.places();
        let ghost old_pos = self.pos@;
        let n = self.vec.len();
        self.pos.insert(String::from_str(k.as_str()), n);
        self.map.insert(String::from_str(k.as_str()), v);
        self.vec.push(k);
        proof {
            let places = self.places();
            assert(places =~= old_places.push(k@));
            assert(places[n as int] == k@);
            lemma_live_keys(places, self.pos@, n + 1);
            lemma_live_keys_prefix(places, old_places, self.pos@, n as int);
            lemma_live_keys_change(old_places, old_pos, self.pos@, n as int, k@);
            assert(self.order() == without(old(self).order(), k@).push(k@));
            assert(self.pos@.dom() =~= self.map@.dom());
            assert forall|kk: Seq<char>| #[trigger] self.pos@.contains_key(kk) implies self.pos@[kk] < self.vec@.len()
                && self.places()[self.pos@[kk] as int] == kk by {
                if kk != k@ {
                    assert(old_pos.contains_key(kk));
                    assert(places[old_pos[kk] as int] == old_places[old_pos[kk] as int]);
                }
            }
            self.lemma_wf();
            if !old(self).map().contains_key(k@) {
                lemma_without_absent(old(self).order(), k@);
            }
        }
    }

    /// The number of keys in the map, which is the number of entries listed.
    pub fn len(&self) -> (r: usize)
        requires
            self.wf(),
        ensures
            r == self.map().len(),
            r == self.order().len(),
    {
        proof {
            self.order().unique_seq_to_set();
            assert(self.order().to_set() =~= self.map().dom());
        }
        self.map.len()
    }

    /// The entries in order, each key once.
    pub fn iter<'a>(&'a self) -> (r: Vec<(&'a RootRelativePath, &'a V)>)
        requires
            self.wf(),
        ensures
            r@.map_values(|e: (&RootRelativePath, &V)| (e.0@, *e.1)) == self.entries(),
    {
        let mut r: Vec<(&'a RootRelativePath, &'a V)> = Vec::new();
        let mut i: usize = 0;
        while i < self.vec.len()
            invariant
                0 <= i <= self.vec.len(),
                self.wf(),
                r@.map_values(|e: (&RootRelativePath, &V)| (e.0@, *e.1))
                    == live_keys(self.places(), self.pos@, i as int).map_values(|k: Seq<char>| (k, self.map()[k])),
            decreases self.vec.len() - i,
        {
            let k = &self.vec[i];
            let ghost before = r@;
            assert(self.places()[i as int] == k@);
            match self.pos.get(k.as_str()) {
                Some(p) => {
                    if *p == i {
                        let v = self.map.get(k.as_str()).unwrap();
                        r.push((k, v));
                        assert(r@.map_values(|e: (&RootRelativePath, &V)| (e.0@, *e.1)) =~=
                            before.map_values(|e: (&RootRelativePath, &V)| (e.0@, *e.1)).push((k@, *v)));
                        assert(live_keys(self.places(), self.pos@, i + 1) == live_keys(self.places(), self.pos@, i as int).push(k@));
                        assert(live_keys(self.places(), self.pos@, i + 1).map_values(|k: Seq<char>| (k, self.map()[k])) =~=
                            live_keys(self.places(), self.pos@, i as int).map_values(|k: Seq<char>| (k, self.map()[k])).push((k@, *v)));
                    }
                }
                None => {}
            }
            i = i + 1;
        }
        r
    }

    /// The value for a key, if present.
    pub fn lookup(&self, k: &RootRelativePath) -> (r: Option<&V>)
        ensures
            match r {
                Some(v) => self.map().contains_key(k@) && *v == self.map()[k@],
                None => !self.map().contains_key(k@),
            },
    {
        self.map.get(k.as_str())
    }

    /// Removes a key from the map and so from the order.
    pub fn remove(&mut self, k: &RootRelativePath)
        requires
            old(self).wf(),
        ensures
            final(self).wf(),
            final(self).map() == old(self).map().remove(k@),
            final(self).order() == without(old(self).order(), k@),
    {
        let ghost old_pos = self.pos@;
        self.pos.remove(k.as_str());
        self.map.remove(k.as_str());
        proof {
            lemma_live_keys_change(self.places(), old_pos, self.pos@, self.vec@.len() as int, k@);
            assert(self.pos@.dom() =~= self.map@.dom());
            assert forall|kk: Seq<char>| #[trigger] self.pos@.contains_key(kk) implies self.pos@[kk] < self.vec@.len()
                && self.places()[self.pos@[kk] as int] == kk by {
                assert(old_pos.contains_key(kk));
            }
            self.lemma_wf();
        }
    }

    /// Reverses the order of the keys.
    pub fn reverse_order(&mut self)
        requires
            old(self).wf(),
        ensures
            final(self).wf(),
            final(self).map() == old(self).map(),
            final(self).order() == old(self).order().reverse(),
    {
        let ghost l = self.order();
        // The live keys, in order.
        let mut keys: Vec<RootRelativePath> = Vec::new();
        let mut i: usize = 0;
        while i < self.vec.len()
            invariant
                0 <= i <= self.vec.len(),
                self.wf(),
                l == self.order(),
                keys@.map_values(|k: RootRelativePath| k@) == live_keys(self.places(), self.pos@, i as int),
            decreases self.vec.len() - i,
        {
            let k = &self.vec[i];
            assert(self.places()[i as int] == k@);
            match self.pos.get(k.as_str()) {
                Some(p) => {
                    if *p == i {
                        let ghost before = keys@;
                        keys.push(k.duplicate());
                        assert(keys@.map_values(|k: RootRelativePath| k@) =~=
                            before.map_values(|k: RootRelativePath| k@).push(k@));
                    }
                }
                None => {}
            }
            i = i + 1;
        }
        assert(keys@.map_values(|k: RootRelativePath| k@) == l);
        // The new list: the live keys backwards, each recorded at its new place.
        let ghost old_pos = self.pos@;
        let ghost rl = l.reverse();
        proof { lemma_live_keys(self.places(), self.pos@, self.vec@.len() as int); }
        let mut newvec: Vec<RootRelativePath> = Vec::new();
        let mut j: usize = keys.len();
        while j > 0
            invariant
                j <= keys@.len(),
                keys@.len() == l.len(),
                keys@.map_values(|k: RootRelativePath| k@) == l,
                rl == l.reverse(),
                l.no_duplicates(),
                newvec@.len() == l.len() - j,
                newvec@.map_values(|k: RootRelativePath| k@) == rl.take(newvec@.len() as int),
                self.pos@.dom() == old_pos.dom(),
                self.map@ == old(self).map@,
                forall|t: int| 0 <= t < newvec@.len() ==> #[trigger] self.pos@[rl[t]] == t,
                forall|x: Seq<char>| #[trigger] old_pos.contains_key(x) && !rl.take(newvec@.len() as int).contains(x)
                    ==> self.pos@[x] == old_pos[x],
                forall|x: Seq<char>| l.contains(x) ==> #[trigger] old_pos.contains_key(x),
            decreases j,
        {
            j = j - 1;
            let k = keys[j].duplicate();
            let t = newvec.len();
            let ghost before = newvec@;
            assert(k@ == l[j as int]);
            assert(rl[t as int] == l[j as int]);
            assert(l.contains(k@));
            self.pos.insert(String::from_str(k.as_str()), t);
            newvec.push(k);
            assert(newvec@.map_values(|k: RootRelativePath| k@) =~= rl.take(t + 1));
            assert forall|u: int| 0 <= u < newvec@.len() implies #[trigger] self.pos@[rl[u]] == u by {
                if u < t {
                    assert(rl[u] != rl[t as int]) by {
                        assert(rl[u] == l[l.len() - 1 - u]);
                    }
                }
            }
            assert forall|x: Seq<char>| #[trigger] old_pos.contains_key(x) && !rl.take(newvec@.len() as int).contains(x)
                implies self.pos@[x] == old_pos[x] by {
                assert(x != rl[t as int]) by {
                    assert(rl.take(t + 1)[t as int] == rl[t as int]);
                }
                if rl.take(t as int).contains(x) {
                    let w = choose|w: int| 0 <= w < t && rl.take(t as int)[w] == x;
                    assert(rl.take(t + 1)[w] == x);
                }
            }
        }
        self.vec = newvec;
        proof {
            let places = self.places();
            assert(rl.take(rl.len() as int) =~= rl);
            assert(places =~= rl);
            assert forall|t: int| 0 <= t < places.len() implies self.pos@.contains_key(#[trigger] places[t])
                && self.pos@[places[t]] == t by {
                assert(rl[t] == l[l.len() - 1 - t]);
                assert(l.contains(l[l.len() - 1 - t]));
            }
            lemma_live_keys_all(places, self.pos@, places.len() as int);
            assert(places.take(places.len() as int) =~= places);
            assert(self.pos@.dom() =~= self.map@.dom());
            assert forall|kk: Seq<char>| #[trigger] self.pos@.contains_key(kk) implies self.pos@[kk] < self.vec@.len()
                && self.places()[self.pos@[kk] as int] == kk by {
                assert(old(self).map().contains_key(kk));
                assert(l.contains(kk));
                let w = choose|w: int| 0 <= w < l.len() && l[w] == kk;
                assert(rl[l.len() - 1 - w] == kk);
                assert(rl.take(rl.len() as int).contains(kk));
            }
            self.lemma_wf();
        }
    }

    /// Replaces the value of a key that is present, keeping its place in the order.
    pub fn update(&mut self, k: &RootRelativePath, new_value: V)
        requires
            old(self).wf(),
            old(self).map().contains_key(k@),
        ensures
            final(self).wf(),
            final(self).map() == old(self).map().insert(k@, new_value),
            final(self).order() == old(self).order(),
    {
        self.map.insert(String::from_str(k.as_str()), new_value);
        proof {
            assert(self.pos@.dom() =~= self.map@.dom());
            self.lemma_wf();
        }
    }
}

/// Iterating a well-formed map lists each of its keys exactly once, each with its value, and
/// nothing else; so as many entries are listed as the map has keys.
pub proof fn lemma_entries_list_each_key_once<V>(m: OrderedMap<V>)
    requires
        m.wf(),
    ensures
        m.entries().len() == m.map().len(),
        forall|i: int, j: int| 0 <= i < j < m.entries().len() ==> #[trigger] m.entries()[i].0 != #[trigger] m.entries()[j].0,
        forall|i: int| 0 <= i < m.entries().len() ==> m.map().contains_key(#[trigger] m.entries()[i].0)
            && m.entries()[i].1 == m.map()[m.entries()[i].0],
        forall|k: Seq<char>| #[trigger] m.map().contains_key(k) ==>
            exists|i: int| 0 <= i < m.entries().len() && #[trigger] m.entries()[i].0 == k,
{
    let o = m.order();
    o.unique_seq_to_set();
    assert(o.to_set() =~= m.map().dom());
    assert forall|i: int| 0 <= i < m.entries().len() implies m.map().contains_key(#[trigger] m.entries()[i].0)
        && m.entries()[i].1 == m.map()[m.entries()[i].0] by {
        assert(m.entries()[i].0 == o[i]);
        assert(o.contains(o[i]));
    }
    assert forall|i: int, j: int| 0 <= i < j < m.entries().len() implies #[trigger] m.entries()[i].0 != #[trigger] m.entries()[j].0 by {
        assert(m.entries()[i].0 == o[i] && m.entries()[j].0 == o[j]);
    }
    assert forall|k: Seq<char>| #[trigger] m.map().contains_key(k) implies
        exists|i: int| 0 <= i < m.entries().len() && #[trigger] m.entries()[i].0 == k by {
        assert(o.contains(k));
        let i = choose|i: int| 0 <= i < o.len() && o[i] == k;
        assert(m.entries()[i].0 == k);
    }
}

/// Reversing the order twice (as `reverse_order` does, keeping the contents) gives back the same
/// entries in the same order as before.
pub proof fn lemma_reverse_twice<V>(m: OrderedMap<V>, once: OrderedMap<V>, twice: OrderedMap<V>)
    requires
        once.map() == m.map(),
        once.order() == m.order().reverse(),
        twice.map() == once.map(),
        twice.order() == once.order().reverse(),
    ensures
        twice.entries() == m.entries(),
{
    assert(m.order().reverse().reverse() =~= m.order());
    assert(twice.entries() =~= m.entries());
}

} // verus!
