use vstd::prelude::*;

verus! {

/// Bookkeeping of the generated render assets (meshes and materials).
///
/// Every asset gets a fresh identity from one counter. Materials are never
/// released (only the material cache holds them); meshes are allocated for
/// one pooled object and released exactly once.
pub struct AssetLedger {
    /// The identity that the next allocation hands out.
    pub next_asset: u64,
    /// How many meshes were ever allocated.
    pub mesh_allocations: u64,
    /// How many meshes were ever released.
    pub mesh_releases: u64,
    /// How many materials were ever allocated.
    pub material_allocations: u64,
    /// The meshes allocated and not yet released.
    pub live_meshes: Ghost<Set<u64>>,
}

impl AssetLedger {
    pub open spec fn wf(&self) -> bool {
        &&& self.live_meshes@.finite()
        &&& forall|id: u64| #[trigger] self.live_meshes@.contains(id) ==> id < self.next_asset
        &&& self.mesh_releases <= self.mesh_allocations
        &&& self.mesh_allocations - self.mesh_releases == self.live_meshes@.len()
        &&& self.mesh_allocations + self.material_allocations == self.next_asset
    }

    /// A ledger with nothing allocated.
    pub fn new() -> (r: AssetLedger)
        ensures
            r.wf(),
            r.next_asset == 0,
            r.mesh_allocations == 0,
            r.mesh_releases == 0,
            r.material_allocations == 0,
            r.live_meshes@ == Set::<u64>::empty(),
    {
        AssetLedger {
            next_asset: 0,
            mesh_allocations: 0,
            mesh_releases: 0,
            material_allocations: 0,
            live_meshes: Ghost(Set::empty()),
        }
    }

    /// Allocates a fresh mesh identity; the mesh is live until released.
    pub fn allocate_mesh(&mut self) -> (id: u64)
        requires
            old(self).wf(),
            old(self).next_asset < u64::MAX,
        ensures
            final(self).wf(),
            id == old(self).next_asset,
            !old(self).live_meshes@.contains(id),
            final(self).next_asset == old(self).next_asset + 1,
            final(self).mesh_allocations == old(self).mesh_allocations + 1,
            final(self).mesh_releases == old(self).mesh_releases,
            final(self).material_allocations == old(self).material_allocations,
            final(self).live_meshes@ == old(self).live_meshes@.insert(id),
    {
        let id = self.next_asset;
        self.next_asset = self.next_asset + 1;
        self.mesh_allocations = self.mesh_allocations + 1;
        self.live_meshes = Ghost(self.live_meshes@.insert(id));
        id
    }

    /// Releases a live mesh. A mesh that is not live cannot be released,
    /// so no mesh is released twice.
    pub fn release_mesh(&mut self, id: u64)
        requires
            old(self).wf(),
            old(self).live_meshes@.contains(id),
        ensures
            final(self).wf(),
            final(self).next_asset == old(self).next_asset,
            final(self).mesh_allocations == old(self).mesh_allocations,
            final(self).mesh_releases == old(self).mesh_releases + 1,
            final(self).material_allocations == old(self).material_allocations,
            final(self).live_meshes@ == old(self).live_meshes@.remove(id),
    {
        assert(self.live_meshes@.len() > 0) by {
            vstd::set_lib::lemma_set_empty_equivalency_len(self.live_meshes@);
        }
        self.mesh_releases = self.mesh_releases + 1;
        self.live_meshes = Ghost(self.live_meshes@.remove(id));
    }

    /// Allocates a fresh material identity.
    pub fn allocate_material(&mut self) -> (id: u64)
        requires
            old(self).wf(),
            old(self).next_asset < u64::MAX,
        ensures
            final(self).wf(),
            id == old(self).next_asset,
            final(self).next_asset == old(self).next_asset + 1,
            final(self).mesh_allocations == old(self).mesh_allocations,
            final(self).mesh_releases == old(self).mesh_releases,
            final(self).material_allocations == old(self).material_allocations + 1,
            final(self).live_meshes@ == old(self).live_meshes@,
    {
        let id = self.next_asset;
        self.next_asset = self.next_asset + 1;
        self.material_allocations = self.material_allocations + 1;
        id
    }
}

} // verus!
