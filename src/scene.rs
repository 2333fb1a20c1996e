use vstd::prelude::*;

verus! {

/// No two entries share a name.
pub open spec fn names_unique<V>(entries: Seq<(String, V)>) -> bool {
    forall|i: int, j: int|
        0 <= i < entries.len() && 0 <= j < entries.len() && #[trigger] entries[i].0@
            == #[trigger] entries[j].0@ ==> i == j
}

/// Whether some entry carries the name `k`.
pub open spec fn has_name<V>(entries: Seq<(String, V)>, k: Seq<char>) -> bool {
    exists|i: int| 0 <= i < entries.len() && #[trigger] entries[i].0@ == k
}

/// The name-to-item mapping that a list of entries with unique names stands for.
pub open spec fn entries_map<V>(entries: Seq<(String, V)>) -> Map<Seq<char>, V> {
    Map::new(
        |k: Seq<char>| has_name(entries, k),
        |k: Seq<char>| entries[choose|i: int| 0 <= i < entries.len() && #[trigger] entries[i].0@ == k].1,
    )
}

/// In a list with unique names, the entry at `i` is what the mapping gives for its name.
proof fn lemma_entry_in_map<V>(entries: Seq<(String, V)>, i: int)
    requires
        names_unique(entries),
        0 <= i < entries.len(),
    ensures
        entries_map(entries).contains_key(entries[i].0@),
        entries_map(entries)[entries[i].0@] == entries[i].1,
{
    let k = entries[i].0@;
    assert(has_name(entries, k));
    let j = choose|j: int| 0 <= j < entries.len() && #[trigger] entries[j].0@ == k;
    assert(entries[j].0@ == entries[i].0@);
}

/// Replacing the item at `i` keeps the names and updates the mapping at that name.
proof fn lemma_map_update<V>(entries: Seq<(String, V)>, i: int, v: V)
    requires
        names_unique(entries),
        0 <= i < entries.len(),
    ensures
        names_unique(entries.update(i, (entries[i].0, v))),
        entries_map(entries.update(i, (entries[i].0, v))) == entries_map(entries).insert(entries[i].0@, v),
{
    let k = entries[i].0@;
    let s2 = entries.update(i, (entries[i].0, v));
    assert forall|a: int, b: int|
        0 <= a < s2.len() && 0 <= b < s2.len() && #[trigger] s2[a].0@ == #[trigger] s2[b].0@ implies a == b by {
        assert(s2[a].0@ == entries[a].0@);
        assert(s2[b].0@ == entries[b].0@);
    }
    let m1 = entries_map(s2);
    let m2 = entries_map(entries).insert(k, v);
    assert forall|key: Seq<char>| m1.contains_key(key) <==> m2.contains_key(key) by {
        if has_name(s2, key) {
            let a = choose|a: int| 0 <= a < s2.len() && #[trigger] s2[a].0@ == key;
            assert(entries[a].0@ == key);
        }
        if has_name(entries, key) {
            let a = choose|a: int| 0 <= a < entries.len() && #[trigger] entries[a].0@ == key;
            assert(s2[a].0@ == key);
        }
        assert(s2[i].0@ == k);
    }
    assert forall|key: Seq<char>| #[trigger] m1.contains_key(key) implies m1[key] == m2[key] by {
        let a = choose|a: int| 0 <= a < s2.len() && #[trigger] s2[a].0@ == key;
        lemma_entry_in_map(s2, a);
        if a != i {
            lemma_entry_in_map(entries, a);
        }
    }
    assert(m1 =~= m2);
}

/// Appending an entry under a new name keeps the names unique and adds it to the mapping.
proof fn lemma_map_push<V>(entries: Seq<(String, V)>, e: (String, V))
    requires
        names_unique(entries),
        !has_name(entries, e.0@),
    ensures
        names_unique(entries.push(e)),
        entries_map(entries.push(e)) == entries_map(entries).insert(e.0@, e.1),
{
    let s2 = entries.push(e);
    let n = entries.len() as int;
    assert forall|a: int, b: int|
        0 <= a < s2.len() && 0 <= b < s2.len() && #[trigger] s2[a].0@ == #[trigger] s2[b].0@ implies a == b by {
        if a < n && b == n {
            assert(entries[a].0@ == e.0@);
        }
        if b < n && a == n {
            assert(entries[b].0@ == e.0@);
        }
    }
    let m1 = entries_map(s2);
    let m2 = entries_map(entries).insert(e.0@, e.1);
    assert forall|key: Seq<char>| m1.contains_key(key) <==> m2.contains_key(key) by {
        if has_name(s2, key) {
            let a = choose|a: int| 0 <= a < s2.len() && #[trigger] s2[a].0@ == key;
            if a < n {
                assert(entries[a].0@ == key);
            }
        }
        if has_name(entries, key) {
            let a = choose|a: int| 0 <= a < entries.len() && #[trigger] entries[a].0@ == key;
            assert(s2[a].0@ == key);
        }
        assert(s2[n].0@ == e.0@);
    }
    assert forall|key: Seq<char>| #[trigger] m1.contains_key(key) implies m1[key] == m2[key] by {
        let a = choose|a: int| 0 <= a < s2.len() && #[trigger] s2[a].0@ == key;
        lemma_entry_in_map(s2, a);
        if a < n {
            assert(entries[a].0@ == key);
            lemma_entry_in_map(entries, a);
        }
    }
    assert(m1 =~= m2);
}

/// Position of the entry named `name`, if there is one.
fn find_entry<V>(entries: &Vec<(String, V)>, name: &str) -> (r: Option<usize>)
    ensures
        r.is_none() == !has_name(entries@, name@),
        r matches Some(i) ==> i < entries@.len() && entries@[i as int].0@ == name@,
{
    let key = name.to_owned();
    let mut i: usize = 0;
    while i < entries.len()
        invariant
            i <= entries@.len(),
            key@ == name@,
            forall|j: int| 0 <= j < i ==> #[trigger] entries@[j].0@ != name@,
        decreases entries@.len() - i,
    {
        if entries[i].0 == key {
            return Some(i);
        }
        i = i + 1;
    }
    None
}

/// Stores `item` under `name`, replacing an item of the same name.
fn insert_entry<V>(entries: &mut Vec<(String, V)>, name: &str, item: V)
    requires
        names_unique(old(entries)@),
    ensures
        names_unique(final(entries)@),
        entries_map(final(entries)@) == entries_map(old(entries)@).insert(name@, item),
{
    match find_entry(entries, name) {
        Some(i) => {
            proof {
                lemma_map_update(entries@, i as int, item);
            }
            let key = entries[i].0.clone();
            entries.set(i, (key, item));
        },
        None => {
            let key = name.to_owned();
            proof {
                lemma_map_push(entries@, (key, item));
            }
            entries.push((key, item));
        },
    }
}

/// Whether `r` is the nearest of `hits`: absent exactly when no hit is present,
/// and otherwise one of the present hits with the least distance key.
pub open spec fn is_nearest<H>(hits: Seq<Option<(u64, H)>>, r: Option<(u64, H)>) -> bool {
    match r {
        None => forall|i: int| 0 <= i < hits.len() ==> (#[trigger] hits[i]).is_none(),
        Some(best) => {
            &&& exists|i: int| 0 <= i < hits.len() && #[trigger] hits[i] == Some(best)
            &&& forall|i: int|
                0 <= i < hits.len() && (#[trigger] hits[i]).is_some() ==> best.0 <= hits[i].unwrap().0
        },
    }
}

/// The nearest hit does not depend on the order in which shapes are visited:
/// two lists holding the same hits, in any order, yield hits at the same
/// distance key, or both no hit.
pub proof fn lemma_nearest_order_free<H>(
    hits1: Seq<Option<(u64, H)>>,
    hits2: Seq<Option<(u64, H)>>,
    r1: Option<(u64, H)>,
    r2: Option<(u64, H)>,
)
    requires
        forall|i: int| 0 <= i < hits1.len() ==> exists|j: int| 0 <= j < hits2.len() && hits2[j] == #[trigger] hits1[i],
        forall|j: int| 0 <= j < hits2.len() ==> exists|i: int| 0 <= i < hits1.len() && hits1[i] == #[trigger] hits2[j],
        is_nearest(hits1, r1),
        is_nearest(hits2, r2),
    ensures
        r1.is_some() == r2.is_some(),
        r1.is_some() ==> r1.unwrap().0 == r2.unwrap().0,
{
    if let Some(b1) = r1 {
        let i = choose|i: int| 0 <= i < hits1.len() && #[trigger] hits1[i] == Some(b1);
        let j = choose|j: int| 0 <= j < hits2.len() && hits2[j] == #[trigger] hits1[i];
        assert(hits2[j].is_some());
        if let Some(b2) = r2 {
            let j2 = choose|j: int| 0 <= j < hits2.len() && #[trigger] hits2[j] == Some(b2);
            let i2 = choose|i: int| 0 <= i < hits1.len() && hits1[i] == #[trigger] hits2[j2];
            assert(hits1[i2].is_some());
        }
    } else if let Some(b2) = r2 {
        let j = choose|j: int| 0 <= j < hits2.len() && #[trigger] hits2[j] == Some(b2);
        let i = choose|i: int| 0 <= i < hits1.len() && hits1[i] == #[trigger] hits2[j];
        assert(hits1[i].is_none());
    }
}

/// A scene: named shapes and named point lights. Each name refers to at most
/// one shape and at most one light; adding under a taken name replaces the
/// earlier item.
///
/// Items are kept as `(name, item)` pairs in a `Vec` with unique names rather
/// than in a `HashMap<String, _>`: vstd's hash map specification describes
/// lookups only for key types whose hashing it models (integers and `bool`),
/// and for `String` keys that model would have to be assumed.
pub struct Scene<S, L> {
    lights: Vec<(String, L)>,
    shapes: Vec<(String, S)>,
}

impl<S, L> Scene<S, L> {
    /// The scene's shapes, in storage order, each with its name.
    pub closed spec fn shape_entries(&self) -> Seq<(String, S)> {
        self.shapes@
    }

    /// The scene's lights, in storage order, each with its name.
    pub closed spec fn light_entries(&self) -> Seq<(String, L)> {
        self.lights@
    }

    /// The shapes by name.
    pub open spec fn shapes(&self) -> Map<Seq<char>, S> {
        entries_map(self.shape_entries())
    }

    /// The lights by name.
    pub open spec fn lights(&self) -> Map<Seq<char>, L> {
        entries_map(self.light_entries())
    }

    pub open spec fn wf(&self) -> bool {
        names_unique(self.shape_entries()) && names_unique(self.light_entries())
    }

    /// An empty scene.
    pub fn new() -> (r: Self)
        ensures
            r.wf(),
            r.shapes() == Map::<Seq<char>, S>::empty(),
            r.lights() == Map::<Seq<char>, L>::empty(),
    {
        let r = Scene { lights: Vec::new(), shapes: Vec::new() };
        assert(r.shapes() =~= Map::<Seq<char>, S>::empty());
        assert(r.lights() =~= Map::<Seq<char>, L>::empty());
        r
    }

    /// Stores `light` under `name`; a light already under that name is replaced.
    pub fn add_light(&mut self, name: &str, light: L)
        requires
            old(self).wf(),
        ensures
            final(self).wf(),
            final(self).lights() == old(self).lights().insert(name@, light),
            final(self).shape_entries() == old(self).shape_entries(),
    {
        insert_entry(&mut self.lights, name, light);
    }

    /// The light under `name`, if there is one.
    pub fn get_light(&self, name: &str) -> (r: Option<&L>)
        requires
            self.wf(),
        ensures
            r.is_some() == self.lights().contains_key(name@),
            r matches Some(l) ==> *l == self.lights()[name@],
    {
        match find_entry(&self.lights, name) {
            Some(i) => {
                proof {
                    lemma_entry_in_map(self.lights@, i as int);
                }
                Some(&self.lights[i].1)
            },
            None => None,
        }
    }

    /// Stores `shape` under `name`; a shape already under that name is replaced.
    pub fn add_shape(&mut self, name: &str, shape: S)
        requires
            old(self).wf(),
        ensures
            final(self).wf(),
            final(self).shapes() == old(self).shapes().insert(name@, shape),
            final(self).light_entries() == old(self).light_entries(),
    {
        insert_entry(&mut self.shapes, name, shape);
    }

    /// The shape under `name`, if there is one.
    pub fn get_shape(&self, name: &str) -> (r: Option<&S>)
        requires
            self.wf(),
        ensures
            r.is_some() == self.shapes().contains_key(name@),
            r matches Some(s) ==> *s == self.shapes()[name@],
    {
        match find_entry(&self.shapes, name) {
            Some(i) => {
                proof {
                    lemma_entry_in_map(self.shapes@, i as int);
                }
                Some(&self.shapes[i].1)
            },
            None => None,
        }
    }

    /// Casts against every shape with `cast`, which gives for one shape its hit,
    /// if any, with a key that orders hits by their distance along the ray.
    /// Returns the hit with the least key; among equal keys the one met first
    /// is kept. This is nearest-surface selection: the closest near point
    /// wins, not the farthest of the near points, so a shape hidden behind
    /// another is never the one shown.
    pub fn ray_cast<H, F: Fn(&S) -> Option<(u64, H)>>(&self, cast: F) -> (r: Option<(u64, H)>)
        requires
            forall|i: int|
                0 <= i < self.shape_entries().len() ==> cast.requires((&#[trigger] self.shape_entries()[i].1,)),
        ensures
            exists|hits: Seq<Option<(u64, H)>>|
                {
                    &&& hits.len() == self.shape_entries().len()
                    &&& forall|i: int|
                        0 <= i < hits.len() ==> cast.ensures((&self.shape_entries()[i].1,), #[trigger] hits[i])
                    &&& is_nearest(hits, r)
                },
    {
        let mut best: Option<(u64, H)> = None;
        let ghost mut hits: Seq<Option<(u64, H)>> = Seq::empty();
        let mut i: usize = 0;
        while i < self.shapes.len()
            invariant
                i <= self.shapes@.len(),
                hits.len() == i,
                self.shape_entries() == self.shapes@,
                forall|j: int|
                    0 <= j < self.shapes@.len() ==> cast.requires((&#[trigger] self.shapes@[j].1,)),
                forall|j: int| 0 <= j < i ==> cast.ensures((&self.shapes@[j].1,), #[trigger] hits[j]),
                is_nearest(hits, best),
            decreases self.shapes@.len() - i,
        {
            let hit = cast(&self.shapes[i].1);
            let ghost prev = hits;
            let ghost prev_best = best;
            proof {
                hits = hits.push(hit);
                assert(hits.drop_last() =~= prev);
            }
            let replace = match (&hit, &best) {
                (Some(h), Some(b)) => h.0 < b.0,
                (Some(_), None) => true,
                (None, _) => false,
            };
            if replace {
                best = hit;
            }
            proof {
                let n = i as int;
                assert(hits[n] == hit);
                match &best {
                    None => {
                        assert forall|j: int| 0 <= j < hits.len() implies (#[trigger] hits[j]).is_none() by {
                            if j < n {
                                assert(hits[j] == prev[j]);
                            }
                        }
                    },
                    Some(b) => {
                        if replace {
                            assert(hits[n] == Some(*b));
                        } else {
                            assert(prev_best == Some(*b));
                            let k = choose|k: int| 0 <= k < prev.len() && #[trigger] prev[k] == Some(*b);
                            assert(hits[k] == Some(*b));
                        }
                        assert forall|j: int| 0 <= j < hits.len() && (#[trigger] hits[j]).is_some()
                            implies b.0 <= hits[j].unwrap().0 by {
                            if j < n {
                                assert(hits[j] == prev[j]);
                            }
                        }
                    },
                }
            }
            i = i + 1;
        }
        best
    }
}

} // verus!
