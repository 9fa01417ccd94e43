use vstd::prelude::*;

use crate::assets::AssetLedger;
use crate::commands::{geometry_of, lights_of, sprites_of, texts_of};
use crate::geometry::{
    geometry_applied, geometry_candidate, lemma_live_meshes_bounded, material_for, settled, shading_of,
    GeometryCommand, GeometryRenderer, PooledGeometry,
};
use crate::material::{cache_step, lemma_entries_len, MaterialKey};
use crate::pool::MAX_RESERVE;
use crate::renderer::{frame_post, UnifiedRenderer};
use crate::sprite::SpriteItem;

verus! {

/// Once a frame has drawn `n` geometry commands, a following frame with `n`
/// geometry commands creates no object: every command reuses the object at its
/// position, which keeps its handle. When each command also asks for the same
/// kind as the command at its position in the earlier frame, every object takes
/// the fast path and stages no structural change.
pub proof fn law_geometry_pool_stabilizes(r0: UnifiedRenderer, r1: UnifiedRenderer, r2: UnifiedRenderer)
    requires
        frame_post(r0, r1),
        frame_post(r1, r2),
        geometry_of(r1.queue.0@).len() == geometry_of(r0.queue.0@).len(),
    ensures
        r2.geometry.next_handle == r1.geometry.next_handle,
        r2.geometry.pool@.len() == r1.geometry.pool@.len(),
        forall|k: int|
            0 <= k < r2.geometry.pool@.len() ==> (#[trigger] r2.geometry.pool@[k]).handle
                == r1.geometry.pool@[k].handle,
        (forall|k: int|
            0 <= k < geometry_of(r1.queue.0@).len() ==> (#[trigger] geometry_of(r1.queue.0@)[k]).spec_kind()
                == geometry_of(r0.queue.0@)[k].spec_kind()) ==> forall|k: int|
            0 <= k < r2.geometry.pool@.len() ==> (#[trigger] r2.geometry.pool@[k]).staged is None,
{
    let q0 = geometry_of(r0.queue.0@);
    let q1 = geometry_of(r1.queue.0@);
    let p1 = r1.geometry.pool@.map_values(|o: PooledGeometry| settled(o));
    assert forall|k: int| 0 <= k < r2.geometry.pool@.len() implies (#[trigger] r2.geometry.pool@[k]).handle
        == r1.geometry.pool@[k].handle by {
        assert(geometry_applied(
            geometry_candidate(p1, r1.geometry.next_handle, q1, k),
            q1[k],
            r2.geometry.pool@[k],
            r1.geometry.assets.next_asset,
        ));
    }
    if forall|k: int| 0 <= k < q1.len() ==> (#[trigger] q1[k]).spec_kind() == q0[k].spec_kind() {
        assert forall|k: int| 0 <= k < r2.geometry.pool@.len() implies (#[trigger] r2.geometry.pool@[k]).staged is None by {
            let p0 = r0.geometry.pool@.map_values(|o: PooledGeometry| settled(o));
            assert(geometry_applied(
                geometry_candidate(p0, r0.geometry.next_handle, q0, k),
                q0[k],
                r1.geometry.pool@[k],
                r0.geometry.assets.next_asset,
            ));
            assert(geometry_applied(
                geometry_candidate(p1, r1.geometry.next_handle, q1, k),
                q1[k],
                r2.geometry.pool@[k],
                r1.geometry.assets.next_asset,
            ));
            assert(q1[k].spec_kind() == q0[k].spec_kind());
        }
    }
}

/// Requests bind to pooled objects by position, not by content: in every
/// domain the `k`-th request of a frame goes to the object that was `k`-th in
/// the pool, which keeps its handle, whenever the pool had such an object.
pub proof fn law_positional_binding(r0: UnifiedRenderer, r1: UnifiedRenderer)
    requires
        frame_post(r0, r1),
    ensures
        forall|k: int|
            0 <= k < r0.geometry.pool@.len() && k < geometry_of(r0.queue.0@).len() ==> (#[trigger] r1.geometry.pool@[k]).handle
                == r0.geometry.pool@[k].handle,
        forall|k: int|
            0 <= k < r0.sprites.pool@.len() && k < sprites_of(r0.queue.0@).len() ==> (#[trigger] r1.sprites.pool@[k]).handle
                == r0.sprites.pool@[k].handle,
        forall|k: int|
            0 <= k < r0.texts.pool@.len() && k < texts_of(r0.queue.0@).len() ==> (#[trigger] r1.texts.pool@[k]).handle
                == r0.texts.pool@[k].handle,
        forall|k: int|
            0 <= k < r0.lights.pool@.len() && k < lights_of(r0.queue.0@).len() ==> (#[trigger] r1.lights.pool@[k]).handle
                == r0.lights.pool@[k].handle,
{
    let q = geometry_of(r0.queue.0@);
    let p0 = r0.geometry.pool@.map_values(|o: PooledGeometry| settled(o));
    assert forall|k: int|
        0 <= k < r0.geometry.pool@.len() && k < q.len() implies (#[trigger] r1.geometry.pool@[k]).handle
            == r0.geometry.pool@[k].handle by {
        assert(geometry_applied(
            geometry_candidate(p0, r0.geometry.next_handle, q, k),
            q[k],
            r1.geometry.pool@[k],
            r0.geometry.assets.next_asset,
        ));
    }
}

/// The fast and the slow path end in the same state once staged changes have
/// landed: the object has the requested kind, nothing staged, the request's
/// parameters and is visible, whatever kind it had before.
pub proof fn law_paths_agree_once_settled(
    fast_before: PooledGeometry,
    slow_before: PooledGeometry,
    command: GeometryCommand,
    fast_after: PooledGeometry,
    slow_after: PooledGeometry,
    fresh_from: u64,
)
    requires
        fast_before.kind == command.spec_kind(),
        slow_before.kind != command.spec_kind(),
        geometry_applied(fast_before, command, fast_after, fresh_from),
        geometry_applied(slow_before, command, slow_after, fresh_from),
    ensures
        settled(fast_after).kind == command.spec_kind(),
        settled(slow_after).kind == command.spec_kind(),
        settled(fast_after).staged is None,
        settled(slow_after).staged is None,
        settled(fast_after).command == settled(slow_after).command,
        settled(fast_after).visible && settled(slow_after).visible,
{
}

/// Two requests for the same key get the same material, and at most one
/// material is allocated between them.
pub proof fn law_material_shared(
    m0: Map<MaterialKey, u64>,
    l0: AssetLedger,
    key: MaterialKey,
    id1: u64,
    m1: Map<MaterialKey, u64>,
    l1: AssetLedger,
    id2: u64,
    m2: Map<MaterialKey, u64>,
    l2: AssetLedger,
)
    requires
        cache_step(m0, l0, key, id1, m1, l1),
        cache_step(m1, l1, key, id2, m2, l2),
    ensures
        id1 == id2,
        m2 == m1,
        l2 == l1,
        l2.material_allocations <= l0.material_allocations + 1,
{
}

/// Two pooled objects whose commands ask for the same (colour, texture) and
/// the same shading draw with the same cached material, and the cache holds
/// exactly one material per key.
pub proof fn law_same_key_same_material(g: GeometryRenderer, j: int, k: int)
    requires
        g.wf(),
        0 <= j < g.pool@.len(),
        0 <= k < g.pool@.len(),
        g.pool@[j].command.spec_material_key() is Some,
        g.pool@[j].command.spec_material_key() == g.pool@[k].command.spec_material_key(),
        shading_of(g.pool@[j].command.spec_kind()) == shading_of(g.pool@[k].command.spec_kind()),
    ensures
        g.pool@[j].material == g.pool@[k].material,
        g.pool@[j].material == material_for(g.pool@[j].command, g.materials),
        g.assets.material_allocations == g.materials.size(),
{
    assert(g.pool@[j].material == material_for(g.pool@[j].command, g.materials));
    assert(g.pool@[k].material == material_for(g.pool@[k].command, g.materials));
}

/// Exactly one material is allocated per distinct (colour, texture) key of
/// each shading model.
pub proof fn law_one_material_per_key(g: GeometryRenderer)
    requires
        g.wf(),
    ensures
        g.materials.view_2d().dom().finite(),
        g.materials.view_3d().dom().finite(),
        g.assets.material_allocations == g.materials.view_2d().dom().len() + g.materials.view_3d().dom().len(),
{
    lemma_entries_len(g.materials.cache_2d@);
    lemma_entries_len(g.materials.cache_3d@);
}

/// Meshes are never leaked: allocations minus releases is the number of live
/// meshes, each owned by one pooled object, so it never exceeds the pool size.
pub proof fn law_mesh_accounting_bounded(g: GeometryRenderer)
    requires
        g.wf(),
    ensures
        g.assets.mesh_allocations - g.assets.mesh_releases == g.assets.live_meshes@.len(),
        g.assets.live_meshes@.len() <= g.pool@.len(),
{
    lemma_live_meshes_bounded(g.pool@, g.assets.live_meshes@);
}

/// A ring drawn by an object that owned a ring mesh gets a new mesh, and the
/// previous one is released.
pub proof fn law_ring_regenerates(r0: UnifiedRenderer, r1: UnifiedRenderer, k: int, old_mesh: u64)
    requires
        r0.wf(),
        frame_post(r0, r1),
        0 <= k < r0.geometry.pool@.len(),
        0 <= k < geometry_of(r0.queue.0@).len(),
        geometry_of(r0.queue.0@)[k] is Ring,
        r0.geometry.pool@[k].owned.mesh == Some(old_mesh),
    ensures
        r1.geometry.pool@[k].owned.mesh matches Some(new_mesh) && new_mesh != old_mesh
            && r1.geometry.assets.live_meshes@.contains(new_mesh),
        !r1.geometry.assets.live_meshes@.contains(old_mesh),
{
    let q = geometry_of(r0.queue.0@);
    let p0 = r0.geometry.pool@.map_values(|o: PooledGeometry| settled(o));
    assert(geometry_applied(
        geometry_candidate(p0, r0.geometry.next_handle, q, k),
        q[k],
        r1.geometry.pool@[k],
        r0.geometry.assets.next_asset,
    ));
    let o0 = r0.geometry.pool@[k];
    assert(r0.geometry.assets.live_meshes@.contains(o0.owned.mesh.unwrap()));
    let o1 = r1.geometry.pool@[k];
    assert(o1.command is Ring);
    assert(o1.owned.mesh is Some);
    assert(r1.geometry.assets.live_meshes@.contains(o1.owned.mesh.unwrap()));
}

/// Drawing the same sprites two frames running changes nothing in the second
/// frame: every object already holds the requested values, so no field is
/// written.
pub proof fn law_sprite_frames_idempotent(r0: UnifiedRenderer, r1: UnifiedRenderer, r2: UnifiedRenderer)
    requires
        frame_post(r0, r1),
        frame_post(r1, r2),
        sprites_of(r1.queue.0@) == sprites_of(r0.queue.0@),
    ensures
        r2.sprites.pool@ == r1.sprites.pool@.map_values(|o: SpriteItem| SpriteItem { writes: 0, ..o }),
        r2.sprites.next_handle == r1.sprites.next_handle,
{
    let n = sprites_of(r0.queue.0@).len();
    assert(r1.sprites.pool@.len() <= n + MAX_RESERVE);
    assert(r2.sprites.pool@ =~= r1.sprites.pool@.map_values(|o: SpriteItem| SpriteItem { writes: 0, ..o }));
}

} // verus!
