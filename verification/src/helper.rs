use vstd::prelude::*;

verus! {

/// Integer key handed out by [`AutoIncrementalMap`]. Key `0` is never
/// assigned, leaving it free as a "no key" sentinel for callers.
pub type MapId = i32;

/// A mapping container that assigns every inserted value a stable integer
/// key: one greater than the largest key currently present, or `1` on an
/// empty map. Removal neither compacts nor renumbers the remaining entries,
/// and no enumeration order is promised to callers.
pub struct AutoIncrementalMap<T> {
    entries: Vec<(MapId, T)>,
}

/// The first binding of `id` in a pair sequence, scanning from the front.
pub open spec fn spec_get<T>(kvs: Seq<(MapId, T)>, id: MapId) -> Option<T>
    decreases kvs.len(),
{
    if kvs.len() == 0 {
        None
    } else if kvs[0].0 == id {
        Some(kvs[0].1)
    } else {
        spec_get(kvs.drop_first(), id)
    }
}

/// The pair sequence with the first binding of `id` detached, if any.
pub open spec fn spec_remove<T>(kvs: Seq<(MapId, T)>, id: MapId) -> Seq<(MapId, T)>
    decreases kvs.len(),
{
    if kvs.len() == 0 {
        kvs
    } else if kvs[0].0 == id {
        kvs.drop_first()
    } else {
        seq![kvs[0]] + spec_remove(kvs.drop_first(), id)
    }
}

/// Position of the first binding of `id`, counting from the front.
pub open spec fn spec_index_of<T>(kvs: Seq<(MapId, T)>, id: MapId) -> int
    decreases kvs.len(),
{
    if kvs.len() == 0 {
        0
    } else if kvs[0].0 == id {
        0
    } else {
        1 + spec_index_of(kvs.drop_first(), id)
    }
}

/// The largest key present, or `0` on an empty map.
pub open spec fn spec_max_key<T>(kvs: Seq<(MapId, T)>) -> int
    decreases kvs.len(),
{
    if kvs.len() == 0 {
        0
    } else {
        let rest = spec_max_key(kvs.drop_last());
        if kvs.last().0 > rest {
            kvs.last().0 as int
        } else {
            rest
        }
    }
}

/// The key that the next insertion will be assigned.
pub open spec fn spec_next_id<T>(kvs: Seq<(MapId, T)>) -> int {
    spec_max_key(kvs) + 1
}

/// Well-formed contents: keys pairwise distinct and at least `1`.
pub open spec fn map_wf<T>(kvs: Seq<(MapId, T)>) -> bool {
    &&& forall|i: int, j: int|
        0 <= i < j < kvs.len() ==> (#[trigger] kvs[i]).0 != (#[trigger] kvs[j]).0
    &&& forall|i: int| 0 <= i < kvs.len() ==> (#[trigger] kvs[i]).0 >= 1
}

/// The same entries with every value sent through `f`; keys stay put. The
/// views of the types that nest maps are phrased with this.
pub open spec fn map_entries<T, U>(kvs: Seq<(MapId, T)>, f: spec_fn(T) -> U) -> Seq<(MapId, U)> {
    kvs.map_values(|kv: (MapId, T)| (kv.0, f(kv.1)))
}

/// Lookup commutes with mapping the values.
pub proof fn lemma_map_entries_get<T, U>(kvs: Seq<(MapId, T)>, id: MapId, f: spec_fn(T) -> U)
    ensures
        spec_get(map_entries(kvs, f), id) == match spec_get(kvs, id) {
            Some(v) => Some(f(v)),
            None => None::<U>,
        },
    decreases kvs.len(),
{
    if kvs.len() > 0 {
        assert(map_entries(kvs, f)[0] == (kvs[0].0, f(kvs[0].1)));
        if kvs[0].0 != id {
            assert(map_entries(kvs, f).drop_first() =~= map_entries(kvs.drop_first(), f));
            lemma_map_entries_get(kvs.drop_first(), id, f);
        }
    }
}

/// Removal and the position of the first match commute with mapping the
/// values.
pub proof fn lemma_map_entries_remove<T, U>(kvs: Seq<(MapId, T)>, id: MapId, f: spec_fn(T) -> U)
    ensures
        spec_remove(map_entries(kvs, f), id) == map_entries(spec_remove(kvs, id), f),
        spec_index_of(map_entries(kvs, f), id) == spec_index_of(kvs, id),
    decreases kvs.len(),
{
    if kvs.len() > 0 {
        assert(map_entries(kvs, f)[0] == (kvs[0].0, f(kvs[0].1)));
        assert(map_entries(kvs, f).drop_first() =~= map_entries(kvs.drop_first(), f));
        if kvs[0].0 == id {
        } else {
            lemma_map_entries_remove(kvs.drop_first(), id, f);
            assert(seq![map_entries(kvs, f)[0]] + spec_remove(
                map_entries(kvs.drop_first(), f),
                id,
            ) =~= map_entries(seq![kvs[0]] + spec_remove(kvs.drop_first(), id), f));
        }
    }
}

/// The largest key does not change when the values are mapped.
pub proof fn lemma_map_entries_max<T, U>(kvs: Seq<(MapId, T)>, f: spec_fn(T) -> U)
    ensures
        spec_max_key(map_entries(kvs, f)) == spec_max_key(kvs),
        map_wf(map_entries(kvs, f)) == map_wf(kvs),
    decreases kvs.len(),
{
    assert(forall|i: int|
        0 <= i < kvs.len() ==> (#[trigger] map_entries(kvs, f)[i]).0 == kvs[i].0);
    if kvs.len() > 0 {
        assert(map_entries(kvs, f).drop_last() =~= map_entries(kvs.drop_last(), f));
        lemma_map_entries_max(kvs.drop_last(), f);
        assert(map_entries(kvs, f).last() == (kvs.last().0, f(kvs.last().1)));
    }
    if map_wf(kvs) {
        assert(map_wf(map_entries(kvs, f)));
    }
    if map_wf(map_entries(kvs, f)) {
        let out = map_entries(kvs, f);
        assert forall|i: int, j: int| 0 <= i < j < kvs.len() implies (#[trigger] kvs[i]).0 != (
        #[trigger] kvs[j]).0 by {
            assert(out[i].0 == kvs[i].0 && out[j].0 == kvs[j].0);
        }
        assert forall|i: int| 0 <= i < kvs.len() implies (#[trigger] kvs[i]).0 >= 1 by {
            assert(out[i].0 == kvs[i].0);
        }
    }
}

/// When a key is absent, no entry carries it.
pub proof fn lemma_get_none_absent<T>(kvs: Seq<(MapId, T)>, id: MapId)
    requires
        spec_get(kvs, id) is None,
    ensures
        forall|i: int| 0 <= i < kvs.len() ==> (#[trigger] kvs[i]).0 != id,
    decreases kvs.len(),
{
    if kvs.len() > 0 {
        lemma_get_none_absent(kvs.drop_first(), id);
        assert(forall|i: int| 1 <= i < kvs.len() ==> kvs[i] == kvs.drop_first()[i - 1]);
    }
}

/// When a key is present, the position of its first match is in range and
/// carries that key and the looked-up value.
pub proof fn lemma_index_of_bounds<T>(kvs: Seq<(MapId, T)>, id: MapId)
    requires
        spec_get(kvs, id) is Some,
    ensures
        0 <= spec_index_of(kvs, id) < kvs.len(),
        kvs[spec_index_of(kvs, id)].0 == id,
        spec_get(kvs, id) == Some(kvs[spec_index_of(kvs, id)].1),
    decreases kvs.len(),
{
    if kvs.len() > 0 && kvs[0].0 != id {
        lemma_index_of_bounds(kvs.drop_first(), id);
    }
}

/// Removal keeps the contents well-formed, and every surviving entry was
/// already present.
pub proof fn lemma_remove_keeps_wf<T>(kvs: Seq<(MapId, T)>, id: MapId)
    requires
        map_wf(kvs),
    ensures
        map_wf(spec_remove(kvs, id)),
        forall|i: int|
            0 <= i < spec_remove(kvs, id).len() ==> exists|j: int|
                0 <= j < kvs.len() && #[trigger] spec_remove(kvs, id)[i] == kvs[j],
    decreases kvs.len(),
{
    if kvs.len() > 0 {
        let rest = kvs.drop_first();
        assert(forall|i: int| 0 <= i < rest.len() ==> rest[i] == kvs[i + 1]);
        assert(map_wf(rest));
        if kvs[0].0 == id {
        } else {
            lemma_remove_keeps_wf(rest, id);
            let out = seq![kvs[0]] + spec_remove(rest, id);
            assert(out[0] == kvs[0]);
            assert(forall|i: int| 1 <= i < out.len() ==> out[i] == spec_remove(rest, id)[i - 1]);
            assert forall|i: int, j: int| 0 <= i < j < out.len() implies (#[trigger] out[i]).0 != (
            #[trigger] out[j]).0 by {
                if i == 0 {
                    let w = choose|w: int|
                        0 <= w < rest.len() && spec_remove(rest, id)[j - 1] == rest[w];
                    assert(kvs[0].0 != rest[w].0);
                }
            }
            assert forall|i: int| 0 <= i < out.len() implies (#[trigger] out[i]).0 >= 1 by {
                if i > 0 {
                    let w = choose|w: int|
                        0 <= w < rest.len() && spec_remove(rest, id)[i - 1] == rest[w];
                }
            }
        }
    }
}

impl<T> View for AutoIncrementalMap<T> {
    type V = Seq<(MapId, T)>;

    closed spec fn view(&self) -> Seq<(MapId, T)> {
        self.entries@
    }
}

/// When `id` first occurs at position `j`, the searching spec functions all
/// answer in terms of that position.
proof fn lemma_first_match<T>(kvs: Seq<(MapId, T)>, id: MapId, j: int)
    requires
        0 <= j < kvs.len(),
        kvs[j].0 == id,
        forall|k: int| 0 <= k < j ==> (#[trigger] kvs[k]).0 != id,
    ensures
        spec_get(kvs, id) == Some(kvs[j].1),
        spec_index_of(kvs, id) == j,
        spec_remove(kvs, id) == kvs.remove(j),
    decreases j,
{
    if j == 0 {
        assert(kvs.drop_first() =~= kvs.remove(0));
    } else {
        assert(kvs[0].0 != id);
        let rest = kvs.drop_first();
        assert(rest[j - 1] == kvs[j]);
        assert(forall|k: int| 0 <= k < j - 1 ==> (#[trigger] rest[k]).0 != id) by {
            assert(forall|k: int| 0 <= k < j - 1 ==> rest[k] == kvs[k + 1]);
        }
        lemma_first_match(rest, id, j - 1);
        assert(seq![kvs[0]] + rest.remove(j - 1) =~= kvs.remove(j));
    }
}

/// When `id` occurs nowhere, lookup is absent and removal changes nothing.
proof fn lemma_no_match<T>(kvs: Seq<(MapId, T)>, id: MapId)
    requires
        forall|k: int| 0 <= k < kvs.len() ==> (#[trigger] kvs[k]).0 != id,
    ensures
        spec_get(kvs, id) is None,
        spec_remove(kvs, id) == kvs,
    decreases kvs.len(),
{
    if kvs.len() > 0 {
        let rest = kvs.drop_first();
        assert(forall|k: int| 0 <= k < rest.len() ==> (#[trigger] rest[k]).0 != id) by {
            assert(forall|k: int| 0 <= k < rest.len() ==> rest[k] == kvs[k + 1]);
        }
        lemma_no_match(rest, id);
        assert(seq![kvs[0]] + rest =~= kvs);
    }
}

/// The largest key is never negative, bounds every key, and — unless it is
/// the empty-map default `0` — is itself one of the keys.
pub proof fn lemma_max_key_bounds<T>(kvs: Seq<(MapId, T)>)
    ensures
        spec_max_key(kvs) >= 0,
        forall|i: int| 0 <= i < kvs.len() ==> (#[trigger] kvs[i]).0 <= spec_max_key(kvs),
        spec_max_key(kvs) == 0 || exists|i: int|
            0 <= i < kvs.len() && (#[trigger] kvs[i]).0 == spec_max_key(kvs),
    decreases kvs.len(),
{
    if kvs.len() > 0 {
        let rest = kvs.drop_last();
        lemma_max_key_bounds(rest);
        assert(forall|i: int| 0 <= i < kvs.len() - 1 ==> kvs[i] == rest[i]);
        if kvs.last().0 as int > spec_max_key(rest) {
            assert(kvs[kvs.len() - 1].0 == spec_max_key(kvs));
        } else {
            if spec_max_key(rest) != 0 {
                let w = choose|i: int|
                    0 <= i < rest.len() && (#[trigger] rest[i]).0 == spec_max_key(rest);
                assert(kvs[w].0 == spec_max_key(kvs));
            }
        }
    }
}

/// Law: the key assigned next is strictly greater than every key present, so
/// an insertion never returns a key that was bound at the time of the call,
/// however many removals came before.
pub proof fn lemma_next_id_fresh<T>(kvs: Seq<(MapId, T)>)
    ensures
        forall|i: int| 0 <= i < kvs.len() ==> (#[trigger] kvs[i]).0 < spec_next_id(kvs),
        spec_next_id(kvs) <= MapId::MAX as int ==> spec_get(
            kvs,
            spec_next_id(kvs) as MapId,
        ) is None,
{
    lemma_max_key_bounds(kvs);
    if spec_next_id(kvs) <= MapId::MAX as int {
        let id = spec_next_id(kvs) as MapId;
        assert(forall|k: int| 0 <= k < kvs.len() ==> (#[trigger] kvs[k]).0 != id);
        lemma_no_match(kvs, id);
    }
}

/// Law: on a map populated by insertions alone — entry `i` carries key
/// `i + 1` — the next insertion is assigned key `n + 1` where `n` is the
/// number of entries; so the n-th insertion into an initially empty map is
/// assigned key `n`.
pub proof fn lemma_sequential_keys<T>(kvs: Seq<(MapId, T)>)
    requires
        forall|i: int| 0 <= i < kvs.len() ==> (#[trigger] kvs[i]).0 as int == i + 1,
    ensures
        spec_next_id(kvs) == kvs.len() + 1,
{
    lemma_max_key_bounds(kvs);
    if kvs.len() > 0 {
        assert(kvs[kvs.len() - 1].0 as int == kvs.len());
    }
}

/// Law: after a removal the removed key is absent while every other key is
/// bound exactly as before, and removing an absent key changes nothing.
pub proof fn lemma_remove_then_get<T>(kvs: Seq<(MapId, T)>, id: MapId)
    requires
        map_wf(kvs),
    ensures
        spec_get(spec_remove(kvs, id), id) is None,
        forall|k: MapId|
            k != id ==> spec_get(spec_remove(kvs, id), k) == spec_get(kvs, k),
        spec_get(kvs, id) is None ==> spec_remove(kvs, id) == kvs,
    decreases kvs.len(),
{
    if kvs.len() == 0 {
        assert(spec_remove(kvs, id) == kvs);
    } else {
        let rest = kvs.drop_first();
        assert(forall|i: int| 0 <= i < rest.len() ==> rest[i] == kvs[i + 1]);
        assert(map_wf(rest));
        if kvs[0].0 == id {
            assert(forall|k: int| 0 <= k < rest.len() ==> (#[trigger] rest[k]).0 != id);
            lemma_no_match(rest, id);
        } else {
            lemma_remove_then_get(rest, id);
            let out = seq![kvs[0]] + spec_remove(rest, id);
            assert(out.drop_first() =~= spec_remove(rest, id));
            assert(out[0] == kvs[0]);
            assert(spec_get(out, id) is None);
            assert forall|k: MapId| k != id implies spec_get(out, k) == spec_get(kvs, k) by {
                if k != kvs[0].0 {
                    assert(spec_get(out, k) == spec_get(spec_remove(rest, id), k));
                    assert(spec_get(kvs, k) == spec_get(rest, k));
                }
            }
            if spec_get(kvs, id) is None {
                assert(seq![kvs[0]] + rest =~= kvs);
            }
        }
    }
}

impl<T> Default for AutoIncrementalMap<T> {
    /// An empty map; the first insertion will be assigned key `1`.
    fn default() -> (r: Self)
        ensures
            r@ == Seq::<(MapId, T)>::empty(),
    {
        AutoIncrementalMap { entries: Vec::new() }
    }
}

impl<T> AutoIncrementalMap<T> {
    /// Every value currently stored, in entry order; callers must not rely
    /// on any particular order.
    pub fn get_values(&self) -> (r: Vec<&T>)
        ensures
            r@.len() == self@.len(),
            forall|i: int| 0 <= i < self@.len() ==> r@[i] == self@[i].1,
    {
        let mut r: Vec<&T> = Vec::new();
        let mut i: usize = 0;
        while i < self.entries.len()
            invariant
                i <= self.entries.len(),
                r@.len() == i,
                forall|j: int| 0 <= j < i ==> r@[j] == self@[j].1,
            decreases self.entries.len() - i,
        {
            r.push(&self.entries[i].1);
            i += 1;
        }
        r
    }

    /// Whether the map holds no entries.
    pub fn is_empty(&self) -> (r: bool)
        ensures
            r == (self@.len() == 0),
    {
        self.entries.len() == 0
    }

    /// The number of entries held.
    pub fn len(&self) -> (n: usize)
        ensures
            n == self@.len(),
    {
        self.entries.len()
    }

    /// The entry at an enumeration position; positions exist only for
    /// enumeration and carry no promise about key order.
    pub fn entry_at(&self, i: usize) -> (r: &(MapId, T))
        requires
            i < self@.len(),
        ensures
            *r == self@[i as int],
    {
        &self.entries[i]
    }

    /// The value bound to `id`, or absent; absence is a normal outcome, not
    /// an error.
    pub fn get(&self, id: MapId) -> (r: Option<&T>)
        ensures
            match r {
                Some(v) => spec_get(self@, id) == Some(*v),
                None => spec_get(self@, id) is None,
            },
    {
        let mut j: usize = 0;
        while j < self.entries.len()
            invariant
                j <= self.entries.len(),
                forall|k: int| 0 <= k < j ==> (#[trigger] self@[k]).0 != id,
            decreases self.entries.len() - j,
        {
            if self.entries[j].0 == id {
                proof {
                    lemma_first_match(self@, id, j as int);
                }
                return Some(&self.entries[j].1);
            }
            j += 1;
        }
        proof {
            lemma_no_match(self@, id);
        }
        None
    }

    /// A mutable borrow of the value bound to `id`, or absent. Only the
    /// value can be written through the borrow; the key stays in place.
    pub fn get_mut(&mut self, id: MapId) -> (r: Option<&mut T>)
        ensures
            match spec_get(old(self)@, id) {
                Some(v) => {
                    &&& r is Some
                    &&& *r.unwrap() == v
                    &&& final(self)@ == old(self)@.update(
                        spec_index_of(old(self)@, id),
                        (id, *final(r.unwrap())),
                    )
                },
                None => r is None && final(self)@ == old(self)@,
            },
    {
        let mut j: usize = 0;
        let n = self.entries.len();
        while j < n
            invariant
                j <= n,
                self@ == old(self)@,
                n == self.entries.len(),
                forall|k: int| 0 <= k < j ==> (#[trigger] self@[k]).0 != id,
            decreases n - j,
        {
            if self.entries[j].0 == id {
                proof {
                    lemma_first_match(self@, id, j as int);
                }
                return Some(&mut self.entries[j].1);
            }
            j += 1;
        }
        proof {
            lemma_no_match(self@, id);
        }
        None
    }

    /// Insert a value under a fresh key — one greater than the largest key
    /// present, or `1` on an empty map — and return that key.
    pub fn add(&mut self, value: T) -> (id: MapId)
        requires
            spec_max_key(old(self)@) < MapId::MAX as int,
        ensures
            id as int == spec_next_id(old(self)@),
            final(self)@ == old(self)@.push((id, value)),
    {
        proof {
            lemma_max_key_bounds(self@);
        }
        let id = self.get_last_id() + 1;
        self.entries.push((id, value));
        id
    }

    /// Detach and return the value bound to `id`; other entries keep their
    /// keys and are not renumbered.
    pub fn remove(&mut self, id: MapId) -> (r: Option<T>)
        ensures
            final(self)@ == spec_remove(old(self)@, id),
            r == spec_get(old(self)@, id),
    {
        let mut j: usize = 0;
        while j < self.entries.len()
            invariant
                j <= self.entries.len(),
                self@ == old(self)@,
                forall|k: int| 0 <= k < j ==> (#[trigger] self@[k]).0 != id,
            decreases self.entries.len() - j,
        {
            if self.entries[j].0 == id {
                proof {
                    lemma_first_match(self@, id, j as int);
                }
                let (_, v) = self.entries.remove(j);
                return Some(v);
            }
            j += 1;
        }
        proof {
            lemma_no_match(self@, id);
        }
        None
    }

    /// The largest key currently present, or `0` on an empty map: exactly
    /// the key the most recent insertion was assigned, until it is removed.
    pub fn get_last_id(&self) -> (r: MapId)
        ensures
            r as int == spec_max_key(self@),
    {
        let mut m: MapId = 0;
        let mut i: usize = 0;
        while i < self.entries.len()
            invariant
                i <= self.entries.len(),
                m as int == spec_max_key(self@.take(i as int)),
            decreases self.entries.len() - i,
        {
            proof {
                assert(self@.take(i as int + 1).drop_last() =~= self@.take(i as int));
                assert(self@.take(i as int + 1).last() == self@[i as int]);
            }
            if self.entries[i].0 > m {
                m = self.entries[i].0;
            }
            i += 1;
        }
        proof {
            assert(self@.take(self@.len() as int) =~= self@);
        }
        m
    }


    /// Whether the held keys are pairwise distinct and at least `1`; true
    /// for every map built through this container's own operations.
    pub fn keys_wf(&self) -> (r: bool)
        ensures
            r == map_wf(self@),
    {
        let n = self.entries.len();
        let mut i: usize = 0;
        while i < n
            invariant
                i <= n,
                n == self@.len(),
                forall|a: int, b: int|
                    0 <= a < b < i ==> (#[trigger] self@[a]).0 != (#[trigger] self@[b]).0,
                forall|a: int| 0 <= a < i ==> (#[trigger] self@[a]).0 >= 1,
            decreases n - i,
        {
            if self.entries[i].0 < 1 {
                return false;
            }
            let mut j: usize = 0;
            while j < i
                invariant
                    j <= i,
                    i < n,
                    n == self@.len(),
                    forall|b: int| 0 <= b < j ==> (#[trigger] self@[b]).0 != self@[i as int].0,
                decreases i - j,
            {
                if self.entries[j].0 == self.entries[i].0 {
                    return false;
                }
                j += 1;
            }
            i += 1;
        }
        true
    }

    /// Append an entry under an explicitly chosen key; reserved for code
    /// that rebuilds a map from its serialized form.
    pub(crate) fn push_entry(&mut self, id: MapId, value: T)
        ensures
            final(self)@ == old(self)@.push((id, value)),
    {
        self.entries.push((id, value));
    }
}

} // verus!
