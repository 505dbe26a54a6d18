//! A map keyed by strings, kept as a list of entries with distinct keys.
//! Requests to LXD carry such maps (configuration keys, devices); their order
//! carries no meaning.

use vstd::prelude::*;
use crate::text::str_eq;

verus! {

/// The map that a list of entries denotes: later entries win, though the
/// type's invariant keeps keys distinct, so no entry is shadowed.
pub open spec fn map_of<V: View>(entries: Seq<(String, V)>) -> Map<Seq<char>, V::V>
    decreases entries.len(),
{
    if entries.len() == 0 {
        Map::empty()
    } else {
        map_of(entries.drop_last()).insert(entries.last().0@, entries.last().1@)
    }
}

/// No two entries have the same key.
pub open spec fn distinct_keys<V>(entries: Seq<(String, V)>) -> bool {
    forall|i: int, j: int|
        0 <= i < entries.len() && 0 <= j < entries.len() && i != j ==> #[trigger] entries[i].0@
            != #[trigger] entries[j].0@
}

/// A map from strings to values, kept in insertion order.
#[derive(Debug)]
pub struct StrMap<V> {
    entries: Vec<(String, V)>,
}

impl<V: View> View for StrMap<V> {
    type V = Map<Seq<char>, V::V>;

    closed spec fn view(&self) -> Map<Seq<char>, V::V> {
        map_of(self.entries@)
    }
}

pub proof fn lemma_map_of_dom<V: View>(entries: Seq<(String, V)>)
    ensures
        forall|k: Seq<char>|
            #[trigger] map_of(entries).contains_key(k) <==> exists|i: int|
                0 <= i < entries.len() && #[trigger] entries[i].0@ == k,
        map_of(entries).dom().finite(),
    decreases entries.len(),
{
    if entries.len() > 0 {
        let p = entries.drop_last();
        lemma_map_of_dom(p);
        assert forall|k: Seq<char>| #[trigger] map_of(entries).contains_key(k) implies exists|
            i: int,
        | 0 <= i < entries.len() && #[trigger] entries[i].0@ == k by {
            if k != entries.last().0@ {
                let i = choose|i: int| 0 <= i < p.len() && #[trigger] p[i].0@ == k;
                assert(entries[i] == p[i]);
            } else {
                assert(entries[entries.len() - 1].0@ == k);
            }
        }
        assert forall|k: Seq<char>|
            (exists|i: int| 0 <= i < entries.len() && #[trigger] entries[i].0@ == k) implies #[trigger] map_of(
            entries,
        ).contains_key(k) by {
            let i = choose|i: int| 0 <= i < entries.len() && #[trigger] entries[i].0@ == k;
            if i < entries.len() - 1 {
                assert(p[i] == entries[i]);
            }
        }
    }
}

pub proof fn lemma_map_of_index<V: View>(entries: Seq<(String, V)>, i: int)
    requires
        distinct_keys(entries),
        0 <= i < entries.len(),
    ensures
        map_of(entries).contains_key(entries[i].0@),
        map_of(entries)[entries[i].0@] == entries[i].1@,
    decreases entries.len(),
{
    let p = entries.drop_last();
    if i < entries.len() - 1 {
        assert(distinct_keys(p));
        assert(p[i] == entries[i]);
        lemma_map_of_index(p, i);
    }
}

proof fn lemma_map_of_update<V: View>(entries: Seq<(String, V)>, i: int, e: (String, V))
    requires
        distinct_keys(entries),
        0 <= i < entries.len(),
        entries[i].0@ == e.0@,
    ensures
        map_of(entries.update(i, e)) == map_of(entries).insert(e.0@, e.1@),
        distinct_keys(entries.update(i, e)),
    decreases entries.len(),
{
    let u = entries.update(i, e);
    let p = entries.drop_last();
    assert(distinct_keys(u)) by {
        assert forall|a: int, b: int|
            0 <= a < u.len() && 0 <= b < u.len() && a != b implies #[trigger] u[a].0@
            != #[trigger] u[b].0@ by {
            assert(entries[a].0@ != entries[b].0@);
        }
    }
    if i == entries.len() - 1 {
        assert(u.drop_last() =~= p);
        lemma_map_of_dom(p);
        assert(!map_of(p).contains_key(e.0@)) by {
            if map_of(p).contains_key(e.0@) {
                let j = choose|j: int| 0 <= j < p.len() && #[trigger] p[j].0@ == e.0@;
                assert(entries[j].0@ == entries[i].0@);
            }
        }
        assert(map_of(u) =~= map_of(entries).insert(e.0@, e.1@));
    } else {
        assert(distinct_keys(p));
        lemma_map_of_update(p, i, e);
        assert(u.drop_last() =~= p.update(i, e));
        assert(entries.last().0@ != e.0@) by {
            assert(entries[entries.len() - 1].0@ != entries[i].0@);
        }
        assert(map_of(u) =~= map_of(entries).insert(e.0@, e.1@));
    }
}

impl<V> StrMap<V> {
    #[verifier::type_invariant]
    closed spec fn keys_distinct(self) -> bool {
        distinct_keys(self.entries@)
    }

    /// The entries in insertion order.
    pub closed spec fn entry_seq(&self) -> Seq<(String, V)> {
        self.entries@
    }
}

impl<V: View> StrMap<V> {
    /// The keys and values in insertion order.
    pub open spec fn view_pairs(&self) -> Seq<(Seq<char>, V::V)> {
        self.entry_seq().map_values(|e: (String, V)| (e.0@, e.1@))
    }
}

impl<V: View> StrMap<V> {
    /// An empty map.
    pub fn new() -> (m: Self)
        ensures
            m@ == Map::<Seq<char>, V::V>::empty(),
            m.entry_seq().len() == 0,
    {
        StrMap { entries: Vec::new() }
    }

    /// Number of keys.
    pub fn len(&self) -> (n: usize)
        ensures
            n == self.entry_seq().len(),
            n == self@.len(),
    {
        proof {
            use_type_invariant(self);
            self.lemma_len();
        }
        self.entries.len()
    }

    proof fn lemma_len(&self)
        requires
            distinct_keys(self.entries@),
        ensures
            self@.len() == self.entries@.len(),
    {
        lemma_map_of_len(self.entries@);
    }

    /// The entries, in insertion order; they denote the map and hold each key
    /// once.
    pub fn entries(&self) -> (r: &Vec<(String, V)>)
        ensures
            r@ == self.entry_seq(),
            map_of(r@) == self@,
            distinct_keys(r@),
    {
        proof {
            use_type_invariant(self);
        }
        &self.entries
    }

    /// The position of a key among the entries.
    fn find(&self, key: &str) -> (r: Option<usize>)
        ensures
            r matches Some(i) ==> i < self.entries@.len() && self.entries@[i as int].0@ == key@,
            r is None ==> forall|i: int|
                0 <= i < self.entries@.len() ==> #[trigger] self.entries@[i].0@ != key@,
    {
        let n = self.entries.len();
        let mut i: usize = 0;
        while i < n
            invariant
                n == self.entries@.len(),
                i <= n,
                forall|j: int| 0 <= j < i ==> #[trigger] self.entries@[j].0@ != key@,
            decreases n - i,
        {
            if str_eq(self.entries[i].0.as_str(), key) {
                return Some(i);
            }
            i = i + 1;
        }
        None
    }

    /// Whether the key is present.
    pub fn contains_key(&self, key: &str) -> (r: bool)
        ensures
            r == self@.contains_key(key@),
    {
        proof {
            use_type_invariant(self);
            lemma_map_of_dom(self.entries@);
        }
        match self.find(key) {
            Some(i) => true,
            None => false,
        }
    }

    /// The value stored under a key.
    pub fn get(&self, key: &str) -> (r: Option<&V>)
        ensures
            r is Some == self@.contains_key(key@),
            r matches Some(v) ==> v@ == self@[key@],
    {
        proof {
            use_type_invariant(self);
            lemma_map_of_dom(self.entries@);
        }
        match self.find(key) {
            Some(i) => {
                proof {
                    lemma_map_of_index(self.entries@, i as int);
                }
                Some(&self.entries[i].1)
            },
            None => None,
        }
    }

    /// Stores a value under a key, replacing any earlier value there.
    pub fn insert(&mut self, key: String, value: V)
        ensures
            final(self)@ == old(self)@.insert(key@, value@),
            !old(self)@.contains_key(key@) ==> final(self).view_pairs() == old(
                self,
            ).view_pairs().push((key@, value@)),
    {
        proof {
            use_type_invariant(&*self);
            lemma_map_of_dom(self.entries@);
        }
        match self.find(key.as_str()) {
            Some(i) => {
                let ghost old_entries = self.entries@;
                proof {
                    lemma_map_of_update(old_entries, i as int, (key, value));
                }
                let mut entries: Vec<(String, V)> = Vec::new();
                std::mem::swap(&mut entries, &mut self.entries);
                entries.set(i, (key, value));
                self.entries = entries;
            },
            None => {
                let ghost old_entries = self.entries@;
                let mut entries: Vec<(String, V)> = Vec::new();
                std::mem::swap(&mut entries, &mut self.entries);
                entries.push((key, value));
                proof {
                    assert(entries@.drop_last() =~= old_entries);
                    assert(distinct_keys(entries@)) by {
                        assert forall|a: int, b: int|
                            0 <= a < entries@.len() && 0 <= b < entries@.len() && a
                                != b implies #[trigger] entries@[a].0@
                            != #[trigger] entries@[b].0@ by {
                            if a < old_entries.len() && b < old_entries.len() {
                                assert(old_entries[a].0@ != old_entries[b].0@);
                            } else if a < old_entries.len() {
                                assert(old_entries[a].0@ != key@);
                            } else {
                                assert(old_entries[b].0@ != key@);
                            }
                        }
                    }
                }
                self.entries = entries;
                assert(self.view_pairs() =~= old(self).view_pairs().push((key@, value@)));
            },
        }
    }
}

pub proof fn lemma_map_of_len<V: View>(entries: Seq<(String, V)>)
    requires
        distinct_keys(entries),
    ensures
        map_of(entries).len() == entries.len(),
    decreases entries.len(),
{
    if entries.len() > 0 {
        let p = entries.drop_last();
        assert(distinct_keys(p));
        lemma_map_of_len(p);
        lemma_map_of_dom(p);
        assert(!map_of(p).contains_key(entries.last().0@)) by {
            if map_of(p).contains_key(entries.last().0@) {
                let j = choose|j: int| 0 <= j < p.len() && #[trigger] p[j].0@ == entries.last().0@;
                assert(entries[j].0@ == entries[entries.len() - 1].0@);
            }
        }
    }
}


proof fn lemma_map_of_remove<V: View>(entries: Seq<(String, V)>, i: int)
    requires
        distinct_keys(entries),
        0 <= i < entries.len(),
    ensures
        map_of(entries.remove(i)) == map_of(entries).remove(entries[i].0@),
        distinct_keys(entries.remove(i)),
    decreases entries.len(),
{
    let r = entries.remove(i);
    let k = entries[i].0@;
    let p = entries.drop_last();
    assert(distinct_keys(r)) by {
        assert forall|a: int, b: int|
            0 <= a < r.len() && 0 <= b < r.len() && a != b implies #[trigger] r[a].0@
            != #[trigger] r[b].0@ by {
            let a2 = if a < i { a } else { a + 1 };
            let b2 = if b < i { b } else { b + 1 };
            assert(r[a] == entries[a2] && r[b] == entries[b2]);
        }
    }
    lemma_map_of_dom(p);
    if i == entries.len() - 1 {
        assert(r =~= p);
        assert(!map_of(p).contains_key(k)) by {
            if map_of(p).contains_key(k) {
                let j = choose|j: int| 0 <= j < p.len() && #[trigger] p[j].0@ == k;
                assert(entries[j].0@ == entries[i].0@);
            }
        }
        assert(map_of(r) =~= map_of(entries).remove(k));
    } else {
        assert(distinct_keys(p));
        lemma_map_of_remove(p, i);
        assert(r.drop_last() =~= p.remove(i));
        assert(r.last() == entries.last());
        assert(entries.last().0@ != k) by {
            assert(entries[entries.len() - 1].0@ != entries[i].0@);
        }
        assert(map_of(r) =~= map_of(entries).remove(k));
    }
}

impl<V: View> StrMap<V> {
    /// Removes a key and its value, if present.
    pub fn remove(&mut self, key: &str)
        ensures
            final(self)@ == old(self)@.remove(key@),
    {
        proof {
            use_type_invariant(&*self);
            lemma_map_of_dom(self.entries@);
        }
        match self.find(key) {
            Some(i) => {
                let ghost old_entries = self.entries@;
                proof {
                    lemma_map_of_remove(old_entries, i as int);
                }
                let mut entries: Vec<(String, V)> = Vec::new();
                std::mem::swap(&mut entries, &mut self.entries);
                entries.remove(i);
                self.entries = entries;
            },
            None => {
                assert(old(self)@.remove(key@) =~= old(self)@);
            },
        }
    }
}


// ── Keys and values as plain pairs ───────────────────────────────────────

/// The map that a list of key/value pairs denotes.
pub open spec fn pairs_map<W>(p: Seq<(Seq<char>, W)>) -> Map<Seq<char>, W>
    decreases p.len(),
{
    if p.len() == 0 {
        Map::empty()
    } else {
        pairs_map(p.drop_last()).insert(p.last().0, p.last().1)
    }
}

/// No key occurs twice.
pub open spec fn pairs_distinct<W>(p: Seq<(Seq<char>, W)>) -> bool {
    forall|i: int, j: int|
        0 <= i < p.len() && 0 <= j < p.len() && i != j ==> #[trigger] p[i].0 != #[trigger] p[j].0
}

proof fn lemma_pairs_of_entries<V: View>(entries: Seq<(String, V)>)
    ensures
        pairs_map(entries.map_values(|e: (String, V)| (e.0@, e.1@))) == map_of(entries),
        distinct_keys(entries) ==> pairs_distinct(
            entries.map_values(|e: (String, V)| (e.0@, e.1@)),
        ),
    decreases entries.len(),
{
    let p = entries.map_values(|e: (String, V)| (e.0@, e.1@));
    if entries.len() > 0 {
        lemma_pairs_of_entries(entries.drop_last());
        assert(p.drop_last() =~= entries.drop_last().map_values(|e: (String, V)| (e.0@, e.1@)));
    }
    if distinct_keys(entries) {
        assert forall|i: int, j: int|
            0 <= i < p.len() && 0 <= j < p.len() && i != j implies #[trigger] p[i].0
            != #[trigger] p[j].0 by {
            assert(entries[i].0@ != entries[j].0@);
        }
    }
}

pub proof fn lemma_pairs_map_dom<W>(p: Seq<(Seq<char>, W)>)
    ensures
        forall|k: Seq<char>|
            #[trigger] pairs_map(p).contains_key(k) <==> exists|i: int|
                0 <= i < p.len() && #[trigger] p[i].0 == k,
    decreases p.len(),
{
    if p.len() > 0 {
        let q = p.drop_last();
        lemma_pairs_map_dom(q);
        assert forall|k: Seq<char>| #[trigger] pairs_map(p).contains_key(k) implies exists|i: int|
            0 <= i < p.len() && #[trigger] p[i].0 == k by {
            if k != p.last().0 {
                assert(pairs_map(q).contains_key(k));
                let i = choose|i: int| 0 <= i < q.len() && #[trigger] q[i].0 == k;
                assert(p[i] == q[i]);
            } else {
                assert(p[p.len() - 1].0 == k);
            }
        }
        assert forall|k: Seq<char>|
            (exists|i: int| 0 <= i < p.len() && #[trigger] p[i].0 == k) implies #[trigger] pairs_map(
            p,
        ).contains_key(k) by {
            let i = choose|i: int| 0 <= i < p.len() && #[trigger] p[i].0 == k;
            if i < p.len() - 1 {
                assert(q[i] == p[i]);
                assert(q[i].0 == k);
                assert(pairs_map(q).contains_key(k));
            } else {
                assert(p.last().0 == k);
            }
        }
    }
}

pub proof fn lemma_pairs_map_index<W>(p: Seq<(Seq<char>, W)>, i: int)
    requires
        pairs_distinct(p),
        0 <= i < p.len(),
    ensures
        pairs_map(p).contains_key(p[i].0),
        pairs_map(p)[p[i].0] == p[i].1,
    decreases p.len(),
{
    let q = p.drop_last();
    if i < p.len() - 1 {
        assert(pairs_distinct(q));
        assert(q[i] == p[i]);
        lemma_pairs_map_index(q, i);
    }
}

pub proof fn lemma_pairs_map_remove<W>(p: Seq<(Seq<char>, W)>, i: int)
    requires
        pairs_distinct(p),
        0 <= i < p.len(),
    ensures
        pairs_map(p.remove(i)) == pairs_map(p).remove(p[i].0),
        pairs_distinct(p.remove(i)),
    decreases p.len(),
{
    let r = p.remove(i);
    let k = p[i].0;
    let q = p.drop_last();
    assert(pairs_distinct(r)) by {
        assert forall|a: int, b: int|
            0 <= a < r.len() && 0 <= b < r.len() && a != b implies #[trigger] r[a].0
            != #[trigger] r[b].0 by {
            let a2 = if a < i { a } else { a + 1 };
            let b2 = if b < i { b } else { b + 1 };
            assert(r[a] == p[a2] && r[b] == p[b2]);
        }
    }
    lemma_pairs_map_dom(q);
    if i == p.len() - 1 {
        assert(r =~= q);
        assert(!pairs_map(q).contains_key(k)) by {
            if pairs_map(q).contains_key(k) {
                let j = choose|j: int| 0 <= j < q.len() && #[trigger] q[j].0 == k;
                assert(p[j].0 == p[i].0);
            }
        }
        assert(pairs_map(r) =~= pairs_map(p).remove(k));
    } else {
        assert(pairs_distinct(q));
        lemma_pairs_map_remove(q, i);
        assert(r.drop_last() =~= q.remove(i));
        assert(r.last() == p.last());
        assert(p.last().0 != k) by {
            assert(p[p.len() - 1].0 != p[i].0);
        }
        assert(pairs_map(r) =~= pairs_map(p).remove(k));
    }
}

impl<V: View> StrMap<V> {
    /// The keys and values in insertion order, each key once; they denote
    /// the map.
    pub fn pairs_facts(&self)
        ensures
            pairs_distinct(self.view_pairs()),
            pairs_map(self.view_pairs()) == self@,
    {
        proof {
            use_type_invariant(self);
            lemma_pairs_of_entries(self.entries@);
        }
    }
}

} // verus!
