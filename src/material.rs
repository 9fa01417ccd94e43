use vstd::prelude::*;

use crate::assets::AssetLedger;
use crate::values::{same_asset, HashableColor};

verus! {

/// Key of a cached material: the colour bits and the texture identity, if any.
#[derive(Clone, Copy, Debug, PartialEq, Eq, Hash)]
pub struct MaterialKey {
    pub color: HashableColor,
    pub texture: Option<u64>,
}

impl MaterialKey {
    /// Exact equality: bitwise on the colour, by identity on the texture.
    pub fn same_key(&self, other: &MaterialKey) -> (r: bool)
        ensures
            r == (*self == *other),
    {
        self.color.same_bits(&other.color) && same_asset(self.texture, other.texture)
    }
}

/// The map that a list of cache entries stands for.
pub open spec fn entries_view(v: Seq<(MaterialKey, u64)>) -> Map<MaterialKey, u64> {
    Map::new(
        |k: MaterialKey| exists|i: int| 0 <= i < v.len() && v[i].0 == k,
        |k: MaterialKey| v[choose|i: int| 0 <= i < v.len() && v[i].0 == k].1,
    )
}

/// No key appears twice among the entries.
pub open spec fn keys_unique(v: Seq<(MaterialKey, u64)>) -> bool {
    forall|i: int, j: int| 0 <= i < j < v.len() ==> v[i].0 != v[j].0
}

/// What one cache request does, given the cache before and after it.
///
/// A key that is present returns its material and changes nothing. A key that
/// is absent allocates exactly one new material, which is stored under it.
pub open spec fn cache_step(
    before: Map<MaterialKey, u64>,
    l0: AssetLedger,
    key: MaterialKey,
    id: u64,
    after: Map<MaterialKey, u64>,
    l1: AssetLedger,
) -> bool {
    if before.contains_key(key) {
        &&& id == before[key]
        &&& after == before
        &&& l1 == l0
    } else {
        &&& id == l0.next_asset
        &&& after == before.insert(key, id)
        &&& l1.next_asset == l0.next_asset + 1
        &&& l1.material_allocations == l0.material_allocations + 1
        &&& l1.mesh_allocations == l0.mesh_allocations
        &&& l1.mesh_releases == l0.mesh_releases
        &&& l1.live_meshes == l0.live_meshes
    }
}

proof fn lemma_found(v: Seq<(MaterialKey, u64)>, i: int)
    requires
        keys_unique(v),
        0 <= i < v.len(),
    ensures
        entries_view(v).contains_key(v[i].0),
        entries_view(v)[v[i].0] == v[i].1,
{
    let k = v[i].0;
    assert(exists|j: int| 0 <= j < v.len() && v[j].0 == k);
    let j = choose|j: int| 0 <= j < v.len() && v[j].0 == k;
    if j < i {
        assert(v[j].0 != v[i].0);
    } else if i < j {
        assert(v[i].0 != v[j].0);
    }
}

proof fn lemma_push_absent(v: Seq<(MaterialKey, u64)>, key: MaterialKey, id: u64)
    requires
        keys_unique(v),
        !entries_view(v).contains_key(key),
    ensures
        keys_unique(v.push((key, id))),
        entries_view(v.push((key, id))) == entries_view(v).insert(key, id),
{
    let w = v.push((key, id));
    assert forall|i: int, j: int| 0 <= i < j < w.len() implies w[i].0 != w[j].0 by {
        if j == v.len() {
            assert(v[i].0 == w[i].0);
        } else {
            assert(v[i].0 != v[j].0);
        }
    }
    lemma_found(w, v.len() as int);
    assert forall|k: MaterialKey| k != key implies (entries_view(w).contains_key(k)
        == entries_view(v).contains_key(k)) by {
        if entries_view(w).contains_key(k) {
            let j = choose|j: int| 0 <= j < w.len() && w[j].0 == k;
            assert(v[j].0 == k);
        }
        if entries_view(v).contains_key(k) {
            let j = choose|j: int| 0 <= j < v.len() && v[j].0 == k;
            assert(w[j].0 == k);
        }
    }
    assert forall|k: MaterialKey| k != key && #[trigger] entries_view(v).contains_key(k)
        implies entries_view(w)[k] == entries_view(v)[k] by {
        let j = choose|j: int| 0 <= j < v.len() && v[j].0 == k;
        lemma_found(v, j);
        assert(w[j] == v[j]);
        lemma_found(w, j);
    }
    assert(entries_view(w) =~= entries_view(v).insert(key, id));
}

/// With unique keys there are as many keys as entries.
pub proof fn lemma_entries_len(v: Seq<(MaterialKey, u64)>)
    requires
        keys_unique(v),
    ensures
        entries_view(v).dom().finite(),
        entries_view(v).dom().len() == v.len(),
    decreases v.len(),
{
    if v.len() == 0 {
        assert(entries_view(v).dom() =~= Set::<MaterialKey>::empty());
    } else {
        let w = v.drop_last();
        assert(keys_unique(w));
        lemma_entries_len(w);
        let last = v.last();
        assert(!entries_view(w).contains_key(last.0)) by {
            if entries_view(w).contains_key(last.0) {
                let j = choose|j: int| 0 <= j < w.len() && w[j].0 == last.0;
                assert(v[j].0 != v[v.len() - 1].0);
            }
        }
        lemma_push_absent(w, last.0, last.1);
        assert(w.push(last) == v);
        assert(entries_view(v).dom() == entries_view(w).dom().insert(last.0));
    }
}

/// Returns the material stored under `key`, allocating and storing a new one
/// when there is none.
fn lookup_or_insert(
    entries: &mut Vec<(MaterialKey, u64)>,
    key: MaterialKey,
    ledger: &mut AssetLedger,
) -> (id: u64)
    requires
        keys_unique(old(entries)@),
        old(ledger).wf(),
        old(ledger).next_asset < u64::MAX,
    ensures
        keys_unique(final(entries)@),
        final(ledger).wf(),
        cache_step(
            entries_view(old(entries)@),
            *old(ledger),
            key,
            id,
            entries_view(final(entries)@),
            *final(ledger),
        ),
        final(entries)@.len() == old(entries)@.len() + if entries_view(
            old(entries)@,
        ).contains_key(key) {
            0int
        } else {
            1int
        },
{
    let mut i: usize = 0;
    while i < entries.len()
        invariant
            0 <= i <= entries@.len(),
            entries@ == old(entries)@,
            keys_unique(entries@),
            *ledger == *old(ledger),
            ledger.wf(),
            forall|j: int| 0 <= j < i ==> entries@[j].0 != key,
        decreases entries@.len() - i,
    {
        if entries[i].0.same_key(&key) {
            let id = entries[i].1;
            proof {
                lemma_found(entries@, i as int);
            }
            return id;
        }
        i = i + 1;
    }
    assert(!entries_view(entries@).contains_key(key)) by {
        if entries_view(entries@).contains_key(key) {
            let j = choose|j: int| 0 <= j < entries@.len() && entries@[j].0 == key;
            assert(entries@[j].0 != key);
        }
    }
    let id = ledger.allocate_material();
    proof {
        lemma_push_absent(entries@, key, id);
    }
    entries.push((key, id));
    id
}

/// Which of the two shading models a material uses.
#[derive(Clone, Copy, Debug, PartialEq, Eq, Structural)]
pub enum Shading {
    /// Unlit materials, for 2D primitives.
    Unlit,
    /// Lit materials, for 3D primitives.
    Lit,
}

/// A shared reference to a cached material.
#[derive(Clone, Copy, Debug, PartialEq, Eq, Structural)]
pub struct MaterialRef {
    pub shading: Shading,
    pub id: u64,
}

/// Deduplicates generated materials by (colour, texture).
///
/// The unlit (2D) and lit (3D) materials are kept apart. Entries are only
/// ever added: the cache grows with the number of distinct keys requested.
pub struct MaterialCache {
    pub cache_2d: Vec<(MaterialKey, u64)>,
    pub cache_3d: Vec<(MaterialKey, u64)>,
}

impl MaterialCache {
    pub open spec fn wf(&self) -> bool {
        keys_unique(self.cache_2d@) && keys_unique(self.cache_3d@)
    }

    /// The unlit materials by key.
    pub open spec fn view_2d(&self) -> Map<MaterialKey, u64> {
        entries_view(self.cache_2d@)
    }

    /// The lit materials by key.
    pub open spec fn view_3d(&self) -> Map<MaterialKey, u64> {
        entries_view(self.cache_3d@)
    }

    /// The materials of one shading model by key.
    pub open spec fn view_of(&self, shading: Shading) -> Map<MaterialKey, u64> {
        match shading {
            Shading::Unlit => self.view_2d(),
            Shading::Lit => self.view_3d(),
        }
    }

    /// How many materials the cache holds.
    pub open spec fn size(&self) -> nat {
        self.cache_2d@.len() + self.cache_3d@.len()
    }

    /// The empty cache.
    pub fn new() -> (r: MaterialCache)
        ensures
            r.wf(),
            r.view_2d() == Map::<MaterialKey, u64>::empty(),
            r.view_3d() == Map::<MaterialKey, u64>::empty(),
            r.size() == 0,
    {
        let r = MaterialCache { cache_2d: Vec::new(), cache_3d: Vec::new() };
        assert(r.view_2d() =~= Map::<MaterialKey, u64>::empty());
        assert(r.view_3d() =~= Map::<MaterialKey, u64>::empty());
        r
    }

    /// The unlit material for `color` and `texture`, allocated on first request.
    pub fn get_2d(&mut self, color: HashableColor, texture: Option<u64>, assets: &mut AssetLedger) -> (id: u64)
        requires
            old(self).wf(),
            old(assets).wf(),
            old(assets).next_asset < u64::MAX,
        ensures
            final(self).wf(),
            final(assets).wf(),
            cache_step(
                old(self).view_2d(),
                *old(assets),
                MaterialKey { color, texture },
                id,
                final(self).view_2d(),
                *final(assets),
            ),
            final(self).view_3d() == old(self).view_3d(),
            final(self).size() == old(self).size() + final(assets).material_allocations
                - old(assets).material_allocations,
    {
        lookup_or_insert(&mut self.cache_2d, MaterialKey { color, texture }, assets)
    }

    /// The lit material for `color` and `texture`, allocated on first request.
    pub fn get_3d(&mut self, color: HashableColor, texture: Option<u64>, assets: &mut AssetLedger) -> (id: u64)
        requires
            old(self).wf(),
            old(assets).wf(),
            old(assets).next_asset < u64::MAX,
        ensures
            final(self).wf(),
            final(assets).wf(),
            cache_step(
                old(self).view_3d(),
                *old(assets),
                MaterialKey { color, texture },
                id,
                final(self).view_3d(),
                *final(assets),
            ),
            final(self).view_2d() == old(self).view_2d(),
            final(self).size() == old(self).size() + final(assets).material_allocations
                - old(assets).material_allocations,
    {
        lookup_or_insert(&mut self.cache_3d, MaterialKey { color, texture }, assets)
    }
}

} // verus!
