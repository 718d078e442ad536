//! The merged index of leaf layers, keyed by id.

use crate::layers::{Layer, LayerView};
use vstd::prelude::*;

verus! {

/// What a stored `(id, layer)` pair holds.
pub open spec fn pair_view(e: (String, Layer)) -> (Seq<char>, LayerView) {
    (e.0@, e.1@)
}

/// What a sequence of stored pairs holds.
pub open spec fn pairs_view(entries: Seq<(String, Layer)>) -> Seq<(Seq<char>, LayerView)> {
    entries.map_values(|e: (String, Layer)| pair_view(e))
}

/// No two pairs share an id.
pub open spec fn distinct_ids(pairs: Seq<(Seq<char>, LayerView)>) -> bool {
    forall|i: int, j: int| 0 <= i < j < pairs.len() ==> pairs[i].0 != pairs[j].0
}

/// The map built by inserting the pairs one after the other: of two pairs with
/// the same id the later one stays.
pub open spec fn map_of(pairs: Seq<(Seq<char>, LayerView)>) -> Map<Seq<char>, LayerView>
    decreases pairs.len(),
{
    if pairs.len() == 0 {
        Map::empty()
    } else {
        map_of(pairs.drop_last()).insert(pairs.last().0, pairs.last().1)
    }
}

/// The ids of `map_of(pairs)` are the ids of the pairs.
pub proof fn lemma_map_of_dom(pairs: Seq<(Seq<char>, LayerView)>)
    ensures
        map_of(pairs).dom().finite(),
        forall|id: Seq<char>| #[trigger]
            map_of(pairs).dom().contains(id) <==> exists|i: int|
                0 <= i < pairs.len() && #[trigger] pairs[i].0 == id,
    decreases pairs.len(),
{
    if pairs.len() > 0 {
        let front = pairs.drop_last();
        lemma_map_of_dom(front);
        assert forall|id: Seq<char>| #[trigger]
            map_of(pairs).dom().contains(id) implies exists|i: int|
            0 <= i < pairs.len() && #[trigger] pairs[i].0 == id by {
            if id == pairs.last().0 {
                assert(pairs[pairs.len() - 1].0 == id);
            } else {
                let i = choose|i: int| 0 <= i < front.len() && #[trigger] front[i].0 == id;
                assert(pairs[i].0 == id);
            }
        }
        assert forall|id: Seq<char>|
            (exists|i: int|
                0 <= i < pairs.len() && #[trigger] pairs[i].0 == id) implies #[trigger] map_of(
            pairs,
        ).dom().contains(id) by {
            let i = choose|i: int| 0 <= i < pairs.len() && #[trigger] pairs[i].0 == id;
            if i < pairs.len() - 1 {
                assert(front[i].0 == id);
            }
        }
    }
}

/// Where ids are distinct, each pair is found under its id.
pub proof fn lemma_map_of_index(pairs: Seq<(Seq<char>, LayerView)>, i: int)
    requires
        distinct_ids(pairs),
        0 <= i < pairs.len(),
    ensures
        map_of(pairs).dom().contains(pairs[i].0),
        map_of(pairs)[pairs[i].0] == pairs[i].1,
    decreases pairs.len(),
{
    if i < pairs.len() - 1 {
        let front = pairs.drop_last();
        assert(front[i] == pairs[i]);
        lemma_map_of_index(front, i);
    }
}

/// Where ids are distinct, replacing the layer of one pair is an insertion
/// under that pair's id.
pub proof fn lemma_map_of_update(pairs: Seq<(Seq<char>, LayerView)>, i: int, layer: LayerView)
    requires
        distinct_ids(pairs),
        0 <= i < pairs.len(),
    ensures
        map_of(pairs.update(i, (pairs[i].0, layer))) == map_of(pairs).insert(pairs[i].0, layer),
    decreases pairs.len(),
{
    let updated = pairs.update(i, (pairs[i].0, layer));
    let front = pairs.drop_last();
    if i == pairs.len() - 1 {
        assert(updated.drop_last() =~= front);
        assert(map_of(updated) =~= map_of(pairs).insert(pairs[i].0, layer));
    } else {
        assert(front[i] == pairs[i]);
        lemma_map_of_update(front, i, layer);
        assert(updated.drop_last() =~= front.update(i, (pairs[i].0, layer)));
        assert(updated.last() == pairs.last());
        assert(map_of(updated) =~= map_of(pairs).insert(pairs[i].0, layer));
    }
}

/// Where ids are distinct, the map has as many entries as there are pairs.
pub proof fn lemma_map_of_len(pairs: Seq<(Seq<char>, LayerView)>)
    requires
        distinct_ids(pairs),
    ensures
        map_of(pairs).dom().finite(),
        map_of(pairs).len() == pairs.len(),
    decreases pairs.len(),
{
    lemma_map_of_dom(pairs);
    if pairs.len() > 0 {
        let front = pairs.drop_last();
        lemma_map_of_len(front);
        lemma_map_of_dom(front);
        if map_of(front).dom().contains(pairs.last().0) {
            let i = choose|i: int| 0 <= i < front.len() && #[trigger] front[i].0 == pairs.last().0;
            assert(pairs[i].0 == pairs[pairs.len() - 1].0);
        }
    }
}

/// The index of leaf layers by id. An id occurs at most once.
#[derive(Debug)]
pub struct CachedLayers {
    entries: Vec<(String, Layer)>,
}

impl View for CachedLayers {
    type V = Map<Seq<char>, LayerView>;

    closed spec fn view(&self) -> Map<Seq<char>, LayerView> {
        map_of(pairs_view(self.entries@))
    }
}

/// The index of the pair stored under `id`, if there is one.
fn position(entries: &Vec<(String, Layer)>, id: &String) -> (r: Option<usize>)
    ensures
        match r {
            Some(i) => i < entries.len() && pairs_view(entries@)[i as int].0 == id@,
            None => forall|j: int| 0 <= j < entries.len() ==> pairs_view(entries@)[j].0 != id@,
        },
{
    let mut i: usize = 0;
    while i < entries.len()
        invariant
            i <= entries.len(),
            forall|j: int| 0 <= j < i ==> pairs_view(entries@)[j].0 != id@,
        decreases entries.len() - i,
    {
        if entries[i].0 == *id {
            return Some(i);
        }
        i += 1;
    }
    None
}

impl CachedLayers {
    #[verifier::type_invariant]
    spec fn ids_are_distinct(&self) -> bool {
        distinct_ids(pairs_view(self.entries@))
    }

    /// An index without layers.
    pub fn new() -> (r: Self)
        ensures
            r@ == Map::<Seq<char>, LayerView>::empty(),
    {
        let r = CachedLayers { entries: Vec::new() };
        assert(pairs_view(r.entries@) =~= Seq::empty());
        r
    }

    /// The number of layers.
    pub fn len(&self) -> (n: usize)
        ensures
            self@.dom().finite(),
            n == self@.len(),
    {
        proof {
            use_type_invariant(self);
            lemma_map_of_len(pairs_view(self.entries@));
        }
        self.entries.len()
    }

    /// Whether the index holds no layer.
    pub fn is_empty(&self) -> (r: bool)
        ensures
            r == (self@ == Map::<Seq<char>, LayerView>::empty()),
    {
        proof {
            use_type_invariant(self);
            let pairs = pairs_view(self.entries@);
            lemma_map_of_len(pairs);
            if pairs.len() == 0 {
                assert(self@ =~= Map::empty());
            }
        }
        self.entries.len() == 0
    }

    /// Whether a layer is stored under `id`.
    pub fn contains_key(&self, id: &str) -> (r: bool)
        ensures
            r == self@.dom().contains(id@),
    {
        let key = id.to_owned();
        proof {
            lemma_map_of_dom(pairs_view(self.entries@));
        }
        position(&self.entries, &key).is_some()
    }

    /// The layer stored under `id`, if there is one.
    pub fn get(&self, id: &str) -> (r: Option<&Layer>)
        ensures
            match r {
                Some(layer) => self@.dom().contains(id@) && layer@ == self@[id@],
                None => !self@.dom().contains(id@),
            },
    {
        let key = id.to_owned();
        proof {
            use_type_invariant(self);
            lemma_map_of_dom(pairs_view(self.entries@));
        }
        match position(&self.entries, &key) {
            Some(i) => {
                proof {
                    lemma_map_of_index(pairs_view(self.entries@), i as int);
                }
                Some(&self.entries[i].1)
            },
            None => None,
        }
    }

    /// Stores `layer` under `id`, in place of the layer that was stored under
    /// that id, if there was one; that layer is returned.
    pub fn insert(&mut self, id: String, layer: Layer) -> (r: Option<Layer>)
        ensures
            final(self)@ == old(self)@.insert(id@, layer@),
            match r {
                Some(previous) => old(self)@.dom().contains(id@) && previous@ == old(self)@[id@],
                None => !old(self)@.dom().contains(id@),
            },
    {
        proof {
            use_type_invariant(&*self);
            lemma_map_of_dom(pairs_view(self.entries@));
        }
        let mut entries: Vec<(String, Layer)> = Vec::new();
        std::mem::swap(&mut entries, &mut self.entries);
        let ghost before = pairs_view(entries@);
        let found = position(&entries, &id);
        entries.push((id, layer));
        let r = match found {
            Some(i) => {
                let previous = entries.swap_remove(i);
                proof {
                    lemma_map_of_index(before, i as int);
                    lemma_map_of_update(before, i as int, layer@);
                    let after = before.update(i as int, (before[i as int].0, layer@));
                    assert(pairs_view(entries@) =~= after);
                    assert forall|a: int, b: int| 0 <= a < b < after.len() implies after[a].0
                        != after[b].0 by {
                        assert(after[a].0 == before[a].0 && after[b].0 == before[b].0);
                    }
                }
                Some(previous.1)
            },
            None => {
                proof {
                    let after = pairs_view(entries@);
                    assert(after.drop_last() =~= before);
                    assert forall|a: int, b: int| 0 <= a < b < after.len() implies after[a].0
                        != after[b].0 by {
                        assert(after[a] == before[a]);
                        if b < before.len() {
                            assert(after[b] == before[b]);
                        }
                    }
                }
                None
            },
        };
        self.entries = entries;
        r
    }

    /// The stored pairs of id and layer, each id once.
    pub fn into_entries(self) -> (r: Vec<(String, Layer)>)
        ensures
            distinct_ids(pairs_view(r@)),
            map_of(pairs_view(r@)) == self@,
    {
        proof {
            use_type_invariant(&self);
        }
        self.entries
    }
}

} // verus!
