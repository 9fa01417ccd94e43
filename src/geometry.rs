use vstd::prelude::*;

use crate::assets::AssetLedger;
use crate::pool::created_count;
use crate::material::{MaterialCache, MaterialKey, MaterialRef, Shading};
use crate::values::{HashableColor, QuatBits, Vec2Bits, Vec3Bits};

verus! {

/// One request to draw a primitive or a model this frame.
///
/// Geometric parameters are carried as exact `f32` bit patterns; the renderer
/// copies and compares them and never computes with them.
#[derive(Clone, Copy, Debug, PartialEq, Eq)]
pub enum GeometryCommand {
    Circle { position: Vec2Bits, radius: u32, color: HashableColor, texture: Option<u64>, layer: usize },
    Rect { position: Vec2Bits, size: Vec2Bits, color: HashableColor, texture: Option<u64>, layer: usize },
    Line { start: Vec2Bits, end: Vec2Bits, thickness: u32, color: HashableColor, layer: usize },
    Ring { position: Vec2Bits, radius: u32, thickness: u32, color: HashableColor, layer: usize },
    Cube { position: Vec3Bits, rotation: QuatBits, size: u32, color: HashableColor, texture: Option<u64>, layer: usize },
    Cuboid { position: Vec3Bits, rotation: QuatBits, size: Vec3Bits, color: HashableColor, texture: Option<u64>, layer: usize },
    Sphere { position: Vec3Bits, radius: u32, color: HashableColor, texture: Option<u64>, layer: usize },
    Cylinder { position: Vec3Bits, rotation: QuatBits, radius: u32, height: u32, color: HashableColor, texture: Option<u64>, layer: usize },
    Cone { position: Vec3Bits, rotation: QuatBits, radius: u32, height: u32, color: HashableColor, texture: Option<u64>, layer: usize },
    Torus { position: Vec3Bits, rotation: QuatBits, radius: u32, tube_radius: u32, color: HashableColor, texture: Option<u64>, layer: usize },
    Plane { position: Vec3Bits, rotation: QuatBits, size: u32, color: HashableColor, texture: Option<u64>, layer: usize },
    Quad { position: Vec3Bits, rotation: QuatBits, size: Vec2Bits, color: HashableColor, texture: Option<u64>, layer: usize },
    Model { position: Vec3Bits, rotation: QuatBits, scale: Vec3Bits, scene: u64, layer: usize },
}

/// The set of attachments a pooled geometry object carries.
#[derive(Clone, Copy, Debug, PartialEq, Eq, Structural)]
pub enum GeometryKind {
    /// Nothing attached yet.
    Unbound,
    /// A 2D mesh with an unlit material.
    Bound2d,
    /// A 3D mesh with a lit material.
    Bound3d,
    /// An imported model (scene).
    BoundModel,
}

/// The shared unit meshes that primitives are scaled from.
#[derive(Clone, Copy, Debug, PartialEq, Eq, Structural)]
pub enum UnitMesh {
    Circle,
    Rect,
    Cuboid,
    Sphere,
    Cylinder,
    Cone,
    Torus,
    Plane,
}

/// The mesh an object draws: a shared unit mesh, or one generated for it alone.
#[derive(Clone, Copy, Debug, PartialEq, Eq, Structural)]
pub enum MeshRef {
    Unit(UnitMesh),
    Owned(u64),
}

/// The assets generated for one object alone, which it must release.
#[derive(Clone, Copy, Debug, PartialEq, Eq, Structural)]
pub struct TransientResources {
    pub mesh: Option<u64>,
}

/// The shading model that materials of a kind use.
pub open spec fn shading_of(kind: GeometryKind) -> Shading {
    if kind == GeometryKind::Bound2d {
        Shading::Unlit
    } else {
        Shading::Lit
    }
}

impl GeometryCommand {
    pub open spec fn spec_kind(&self) -> GeometryKind {
        match *self {
            GeometryCommand::Circle { .. } => GeometryKind::Bound2d,
            GeometryCommand::Rect { .. } => GeometryKind::Bound2d,
            GeometryCommand::Line { .. } => GeometryKind::Bound2d,
            GeometryCommand::Ring { .. } => GeometryKind::Bound2d,
            GeometryCommand::Model { .. } => GeometryKind::BoundModel,
            _ => GeometryKind::Bound3d,
        }
    }

    /// The kind of object this command needs.
    #[verifier::when_used_as_spec(spec_kind)]
    pub fn kind(&self) -> (r: GeometryKind)
        ensures
            r == self.spec_kind(),
    {
        match *self {
            GeometryCommand::Circle { .. } => GeometryKind::Bound2d,
            GeometryCommand::Rect { .. } => GeometryKind::Bound2d,
            GeometryCommand::Line { .. } => GeometryKind::Bound2d,
            GeometryCommand::Ring { .. } => GeometryKind::Bound2d,
            GeometryCommand::Model { .. } => GeometryKind::BoundModel,
            _ => GeometryKind::Bound3d,
        }
    }

    pub open spec fn spec_layer(&self) -> usize {
        match *self {
            GeometryCommand::Circle { layer, .. } => layer,
            GeometryCommand::Rect { layer, .. } => layer,
            GeometryCommand::Line { layer, .. } => layer,
            GeometryCommand::Ring { layer, .. } => layer,
            GeometryCommand::Cube { layer, .. } => layer,
            GeometryCommand::Cuboid { layer, .. } => layer,
            GeometryCommand::Sphere { layer, .. } => layer,
            GeometryCommand::Cylinder { layer, .. } => layer,
            GeometryCommand::Cone { layer, .. } => layer,
            GeometryCommand::Torus { layer, .. } => layer,
            GeometryCommand::Plane { layer, .. } => layer,
            GeometryCommand::Quad { layer, .. } => layer,
            GeometryCommand::Model { layer, .. } => layer,
        }
    }

    /// The layer the object is drawn on.
    #[verifier::when_used_as_spec(spec_layer)]
    pub fn layer(&self) -> (r: usize)
        ensures
            r == self.spec_layer(),
    {
        match *self {
            GeometryCommand::Circle { layer, .. } => layer,
            GeometryCommand::Rect { layer, .. } => layer,
            GeometryCommand::Line { layer, .. } => layer,
            GeometryCommand::Ring { layer, .. } => layer,
            GeometryCommand::Cube { layer, .. } => layer,
            GeometryCommand::Cuboid { layer, .. } => layer,
            GeometryCommand::Sphere { layer, .. } => layer,
            GeometryCommand::Cylinder { layer, .. } => layer,
            GeometryCommand::Cone { layer, .. } => layer,
            GeometryCommand::Torus { layer, .. } => layer,
            GeometryCommand::Plane { layer, .. } => layer,
            GeometryCommand::Quad { layer, .. } => layer,
            GeometryCommand::Model { layer, .. } => layer,
        }
    }

    pub open spec fn spec_material_key(&self) -> Option<MaterialKey> {
        match *self {
            GeometryCommand::Circle { color, texture, .. } => Some(MaterialKey { color, texture }),
            GeometryCommand::Rect { color, texture, .. } => Some(MaterialKey { color, texture }),
            GeometryCommand::Line { color, .. } => Some(MaterialKey { color, texture: None }),
            GeometryCommand::Ring { color, .. } => Some(MaterialKey { color, texture: None }),
            GeometryCommand::Cube { color, texture, .. } => Some(MaterialKey { color, texture }),
            GeometryCommand::Cuboid { color, texture, .. } => Some(MaterialKey { color, texture }),
            GeometryCommand::Sphere { color, texture, .. } => Some(MaterialKey { color, texture }),
            GeometryCommand::Cylinder { color, texture, .. } => Some(MaterialKey { color, texture }),
            GeometryCommand::Cone { color, texture, .. } => Some(MaterialKey { color, texture }),
            GeometryCommand::Torus { color, texture, .. } => Some(MaterialKey { color, texture }),
            GeometryCommand::Plane { color, texture, .. } => Some(MaterialKey { color, texture }),
            GeometryCommand::Quad { color, texture, .. } => Some(MaterialKey { color, texture }),
            GeometryCommand::Model { .. } => None,
        }
    }

    /// The cached material this command draws with; lines and rings are never
    /// textured, and models bring their own materials.
    #[verifier::when_used_as_spec(spec_material_key)]
    pub fn material_key(&self) -> (r: Option<MaterialKey>)
        ensures
            r == self.spec_material_key(),
    {
        match *self {
            GeometryCommand::Circle { color, texture, .. } => Some(MaterialKey { color, texture }),
            GeometryCommand::Rect { color, texture, .. } => Some(MaterialKey { color, texture }),
            GeometryCommand::Line { color, .. } => Some(MaterialKey { color, texture: None }),
            GeometryCommand::Ring { color, .. } => Some(MaterialKey { color, texture: None }),
            GeometryCommand::Cube { color, texture, .. } => Some(MaterialKey { color, texture }),
            GeometryCommand::Cuboid { color, texture, .. } => Some(MaterialKey { color, texture }),
            GeometryCommand::Sphere { color, texture, .. } => Some(MaterialKey { color, texture }),
            GeometryCommand::Cylinder { color, texture, .. } => Some(MaterialKey { color, texture }),
            GeometryCommand::Cone { color, texture, .. } => Some(MaterialKey { color, texture }),
            GeometryCommand::Torus { color, texture, .. } => Some(MaterialKey { color, texture }),
            GeometryCommand::Plane { color, texture, .. } => Some(MaterialKey { color, texture }),
            GeometryCommand::Quad { color, texture, .. } => Some(MaterialKey { color, texture }),
            GeometryCommand::Model { .. } => None,
        }
    }

    pub open spec fn spec_unit_mesh(&self) -> Option<UnitMesh> {
        match *self {
            GeometryCommand::Circle { .. } => Some(UnitMesh::Circle),
            GeometryCommand::Rect { .. } => Some(UnitMesh::Rect),
            GeometryCommand::Line { .. } => Some(UnitMesh::Rect),
            GeometryCommand::Ring { .. } => None,
            GeometryCommand::Cube { .. } => Some(UnitMesh::Cuboid),
            GeometryCommand::Cuboid { .. } => Some(UnitMesh::Cuboid),
            GeometryCommand::Sphere { .. } => Some(UnitMesh::Sphere),
            GeometryCommand::Cylinder { .. } => Some(UnitMesh::Cylinder),
            GeometryCommand::Cone { .. } => Some(UnitMesh::Cone),
            GeometryCommand::Torus { .. } => Some(UnitMesh::Torus),
            GeometryCommand::Plane { .. } => Some(UnitMesh::Plane),
            GeometryCommand::Quad { .. } => Some(UnitMesh::Plane),
            GeometryCommand::Model { .. } => None,
        }
    }

    /// The shared unit mesh this command is drawn with, if it uses one.
    #[verifier::when_used_as_spec(spec_unit_mesh)]
    pub fn unit_mesh(&self) -> (r: Option<UnitMesh>)
        ensures
            r == self.spec_unit_mesh(),
    {
        match *self {
            GeometryCommand::Circle { .. } => Some(UnitMesh::Circle),
            GeometryCommand::Rect { .. } => Some(UnitMesh::Rect),
            GeometryCommand::Line { .. } => Some(UnitMesh::Rect),
            GeometryCommand::Ring { .. } => None,
            GeometryCommand::Cube { .. } => Some(UnitMesh::Cuboid),
            GeometryCommand::Cuboid { .. } => Some(UnitMesh::Cuboid),
            GeometryCommand::Sphere { .. } => Some(UnitMesh::Sphere),
            GeometryCommand::Cylinder { .. } => Some(UnitMesh::Cylinder),
            GeometryCommand::Cone { .. } => Some(UnitMesh::Cone),
            GeometryCommand::Torus { .. } => Some(UnitMesh::Torus),
            GeometryCommand::Plane { .. } => Some(UnitMesh::Plane),
            GeometryCommand::Quad { .. } => Some(UnitMesh::Plane),
            GeometryCommand::Model { .. } => None,
        }
    }

    /// Whether this command draws a ring, whose mesh is generated for it alone.
    pub fn is_ring(&self) -> (r: bool)
        ensures
            r == (*self is Ring),
    {
        match *self {
            GeometryCommand::Ring { .. } => true,
            _ => false,
        }
    }
}

/// A persistent renderable reused across frames for geometry commands.
#[derive(Clone, Copy, Debug, PartialEq, Eq)]
pub struct PooledGeometry {
    /// Stable identity of the object.
    pub handle: u64,
    /// The attachments the object carries now.
    pub kind: GeometryKind,
    /// A change of attachments requested this frame; it lands at the next frame.
    pub staged: Option<GeometryKind>,
    /// The parameters last written (transform, colour, layer, scene).
    pub command: GeometryCommand,
    pub mesh: Option<MeshRef>,
    pub material: Option<MaterialRef>,
    pub visible: bool,
    /// The assets generated for this object alone.
    pub owned: TransientResources,
}

/// The mesh an object with `command` and owned mesh `owned` draws with.
pub open spec fn mesh_for(command: GeometryCommand, owned: Option<u64>) -> Option<MeshRef> {
    match owned {
        Some(id) => Some(MeshRef::Owned(id)),
        None => match command.spec_unit_mesh() {
            Some(u) => Some(MeshRef::Unit(u)),
            None => None,
        },
    }
}

/// The cached material that `command` resolves to in `cache`.
pub open spec fn material_for(command: GeometryCommand, cache: MaterialCache) -> Option<MaterialRef> {
    match command.spec_material_key() {
        Some(key) => Some(
            MaterialRef {
                shading: shading_of(command.spec_kind()),
                id: cache.view_of(shading_of(command.spec_kind()))[key],
            },
        ),
        None => None,
    }
}

/// The object's mesh, material and owned assets agree with its parameters.
pub open spec fn bound_consistently(o: PooledGeometry, cache: MaterialCache) -> bool {
    &&& (o.command is Ring <==> o.owned.mesh is Some)
    &&& o.mesh == mesh_for(o.command, o.owned.mesh)
    &&& o.material == material_for(o.command, cache)
    &&& (o.command.spec_material_key() matches Some(key) ==> cache.view_of(
        shading_of(o.command.spec_kind()),
    ).contains_key(key))
}

/// The live meshes are exactly those that the objects own, each owned by one object.
pub open spec fn owns_exactly(pool: Seq<PooledGeometry>, live: Set<u64>) -> bool {
    &&& forall|k: int|
        0 <= k < pool.len() && (#[trigger] pool[k]).owned.mesh is Some ==> live.contains(
            pool[k].owned.mesh.unwrap(),
        )
    &&& forall|id: u64|
        #[trigger] live.contains(id) ==> exists|k: int|
            0 <= k < pool.len() && (#[trigger] pool[k]).owned.mesh == Some(id)
    &&& forall|j: int, k: int|
        0 <= j < pool.len() && 0 <= k < pool.len() && j != k && (#[trigger] pool[j]).owned.mesh is Some
            ==> pool[j].owned.mesh != (#[trigger] pool[k]).owned.mesh
}

/// `live` without the mesh that `owned` names, if any.
pub open spec fn without(live: Set<u64>, owned: Option<u64>) -> Set<u64> {
    match owned {
        Some(id) => live.remove(id),
        None => live,
    }
}

/// `live` with the mesh that `owned` names, if any.
pub open spec fn with(live: Set<u64>, owned: Option<u64>) -> Set<u64> {
    match owned {
        Some(id) => live.insert(id),
        None => live,
    }
}

proof fn lemma_owns_update(pool: Seq<PooledGeometry>, live: Set<u64>, i: int, o: PooledGeometry)
    requires
        owns_exactly(pool, live),
        0 <= i < pool.len(),
        o.owned.mesh matches Some(id) ==> !live.contains(id),
    ensures
        owns_exactly(pool.update(i, o), with(without(live, pool[i].owned.mesh), o.owned.mesh)),
{
    let p2 = pool.update(i, o);
    let l2 = with(without(live, pool[i].owned.mesh), o.owned.mesh);
    assert forall|k: int| 0 <= k < p2.len() && (#[trigger] p2[k]).owned.mesh is Some implies l2.contains(
        p2[k].owned.mesh.unwrap(),
    ) by {
        if k != i {
            assert(pool[k] == p2[k]);
        }
    }
    assert forall|id: u64| #[trigger] l2.contains(id) implies exists|k: int|
        0 <= k < p2.len() && (#[trigger] p2[k]).owned.mesh == Some(id) by {
        if o.owned.mesh == Some(id) {
            assert(p2[i].owned.mesh == Some(id));
        } else {
            assert(live.contains(id));
            let k = choose|k: int| 0 <= k < pool.len() && (#[trigger] pool[k]).owned.mesh == Some(id);
            assert(k != i);
            assert(p2[k] == pool[k]);
        }
    }
    assert forall|j: int, k: int|
        0 <= j < p2.len() && 0 <= k < p2.len() && j != k && (#[trigger] p2[j]).owned.mesh is Some
            implies p2[j].owned.mesh != (#[trigger] p2[k]).owned.mesh by {
        if j == i {
            assert(p2[k] == pool[k]);
            if pool[k].owned.mesh is Some {
                assert(live.contains(pool[k].owned.mesh.unwrap()));
            }
        } else if k == i {
            assert(p2[j] == pool[j]);
            assert(live.contains(pool[j].owned.mesh.unwrap()));
        } else {
            assert(p2[j] == pool[j]);
            assert(p2[k] == pool[k]);
        }
    }
}

proof fn lemma_owns_same(pool: Seq<PooledGeometry>, live: Set<u64>, i: int, o: PooledGeometry)
    requires
        owns_exactly(pool, live),
        0 <= i < pool.len(),
        o.owned == pool[i].owned,
    ensures
        owns_exactly(pool.update(i, o), live),
{
    let p2 = pool.update(i, o);
    assert forall|k: int| 0 <= k < p2.len() implies (#[trigger] p2[k]).owned == pool[k].owned by {}
    assert forall|id: u64| #[trigger] live.contains(id) implies exists|k: int|
        0 <= k < p2.len() && (#[trigger] p2[k]).owned.mesh == Some(id) by {
        let k = choose|k: int| 0 <= k < pool.len() && (#[trigger] pool[k]).owned.mesh == Some(id);
        assert(p2[k].owned == pool[k].owned);
    }
}

proof fn lemma_owns_push(pool: Seq<PooledGeometry>, live: Set<u64>, o: PooledGeometry)
    requires
        owns_exactly(pool, live),
        o.owned.mesh matches Some(id) ==> !live.contains(id),
    ensures
        owns_exactly(pool.push(o), with(live, o.owned.mesh)),
{
    let p2 = pool.push(o);
    let l2 = with(live, o.owned.mesh);
    assert forall|k: int| 0 <= k < p2.len() && (#[trigger] p2[k]).owned.mesh is Some implies l2.contains(
        p2[k].owned.mesh.unwrap(),
    ) by {
        if k < pool.len() {
            assert(pool[k] == p2[k]);
        }
    }
    assert forall|id: u64| #[trigger] l2.contains(id) implies exists|k: int|
        0 <= k < p2.len() && (#[trigger] p2[k]).owned.mesh == Some(id) by {
        if o.owned.mesh == Some(id) {
            assert(p2[pool.len() as int].owned.mesh == Some(id));
        } else {
            let k = choose|k: int| 0 <= k < pool.len() && (#[trigger] pool[k]).owned.mesh == Some(id);
            assert(p2[k] == pool[k]);
        }
    }
    assert forall|j: int, k: int|
        0 <= j < p2.len() && 0 <= k < p2.len() && j != k && (#[trigger] p2[j]).owned.mesh is Some
            implies p2[j].owned.mesh != (#[trigger] p2[k]).owned.mesh by {
        if j == pool.len() {
            assert(p2[k] == pool[k]);
            if pool[k].owned.mesh is Some {
                assert(live.contains(pool[k].owned.mesh.unwrap()));
            }
        } else if k == pool.len() {
            assert(p2[j] == pool[j]);
            assert(live.contains(pool[j].owned.mesh.unwrap()));
        } else {
            assert(p2[j] == pool[j]);
            assert(p2[k] == pool[k]);
        }
    }
}

proof fn lemma_owns_drop_last(pool: Seq<PooledGeometry>, live: Set<u64>)
    requires
        owns_exactly(pool, live),
        pool.len() > 0,
    ensures
        owns_exactly(pool.drop_last(), without(live, pool.last().owned.mesh)),
        pool.last().owned.mesh matches Some(id) ==> live.contains(id),
{
    let p2 = pool.drop_last();
    let n = pool.len() - 1;
    let l2 = without(live, pool.last().owned.mesh);
    assert(pool[n] == pool.last());
    assert forall|k: int| 0 <= k < p2.len() && (#[trigger] p2[k]).owned.mesh is Some implies l2.contains(
        p2[k].owned.mesh.unwrap(),
    ) by {
        assert(pool[k] == p2[k]);
        assert(live.contains(pool[k].owned.mesh.unwrap()));
    }
    assert forall|id: u64| #[trigger] l2.contains(id) implies exists|k: int|
        0 <= k < p2.len() && (#[trigger] p2[k]).owned.mesh == Some(id) by {
        assert(live.contains(id));
        let k = choose|k: int| 0 <= k < pool.len() && (#[trigger] pool[k]).owned.mesh == Some(id);
        assert(k != n);
        assert(p2[k] == pool[k]);
    }
    assert forall|j: int, k: int|
        0 <= j < p2.len() && 0 <= k < p2.len() && j != k && (#[trigger] p2[j]).owned.mesh is Some
            implies p2[j].owned.mesh != (#[trigger] p2[k]).owned.mesh by {
        assert(p2[j] == pool[j]);
        assert(p2[k] == pool[k]);
    }
}

/// Every live mesh has its own owner, so there are no more live meshes than objects.
pub proof fn lemma_live_meshes_bounded(pool: Seq<PooledGeometry>, live: Set<u64>)
    requires
        owns_exactly(pool, live),
        live.finite(),
    ensures
        live.len() <= pool.len(),
    decreases pool.len(),
{
    if pool.len() == 0 {
        if live.len() > 0 {
            let id = live.choose();
            assert(live.contains(id));
        }
    } else {
        lemma_owns_drop_last(pool, live);
        lemma_live_meshes_bounded(pool.drop_last(), without(live, pool.last().owned.mesh));
    }
}

/// Every entry of `c0` is still in `c1`, under the same material.
pub open spec fn cache_extends(c0: MaterialCache, c1: MaterialCache) -> bool {
    &&& forall|key: MaterialKey| #[trigger]
        c0.view_2d().contains_key(key) ==> c1.view_2d().contains_key(key) && c1.view_2d()[key]
            == c0.view_2d()[key]
    &&& forall|key: MaterialKey| #[trigger]
        c0.view_3d().contains_key(key) ==> c1.view_3d().contains_key(key) && c1.view_3d()[key]
            == c0.view_3d()[key]
}

/// Every key of `c1` was already in `c0` or is the material `command` asks for.
pub open spec fn cache_adds_only(c0: MaterialCache, c1: MaterialCache, command: GeometryCommand) -> bool {
    forall|sh: Shading, key: MaterialKey| #[trigger]
        c1.view_of(sh).contains_key(key) ==> c0.view_of(sh).contains_key(key) || (command.spec_material_key()
            == Some(key) && sh == shading_of(command.spec_kind()))
}

/// Every key of `c1` was already in `c0` or is the material of one of `commands`.
pub open spec fn cache_adds_only_requested(
    c0: MaterialCache,
    c1: MaterialCache,
    commands: Seq<GeometryCommand>,
) -> bool {
    forall|sh: Shading, key: MaterialKey| #[trigger]
        c1.view_of(sh).contains_key(key) ==> c0.view_of(sh).contains_key(key) || exists|k: int|
            0 <= k < commands.len() && (#[trigger] commands[k]).spec_material_key() == Some(key) && sh
                == shading_of(commands[k].spec_kind())
}

/// A fresh object, before its first command is applied to it.
pub open spec fn fresh_geometry(handle: u64, command: GeometryCommand) -> PooledGeometry {
    PooledGeometry {
        handle,
        kind: GeometryKind::Unbound,
        staged: None,
        command,
        mesh: None,
        material: None,
        visible: false,
        owned: TransientResources { mesh: None },
    }
}

/// What applying `command` to `before` leaves in `after`.
///
/// The object keeps its identity and takes the command's parameters and
/// visibility at once. When its kind already matches (fast path) nothing
/// structural changes; otherwise (slow path) the new kind is staged and lands
/// at the next frame. A ring always gets a newly generated mesh.
pub open spec fn geometry_applied(
    before: PooledGeometry,
    command: GeometryCommand,
    after: PooledGeometry,
    fresh_from: u64,
) -> bool {
    &&& after.handle == before.handle
    &&& after.command == command
    &&& after.visible
    &&& after.kind == before.kind
    &&& after.staged == if before.kind == command.spec_kind() {
        None
    } else {
        Some(command.spec_kind())
    }
    &&& (after.owned.mesh matches Some(id) ==> fresh_from <= id)
}

/// The geometry domain: its pooled objects, the material cache and the asset ledger.
pub struct GeometryRenderer {
    pub pool: Vec<PooledGeometry>,
    pub materials: MaterialCache,
    pub assets: AssetLedger,
    /// The handle the next created object gets.
    pub next_handle: u64,
}

impl GeometryRenderer {
    pub open spec fn wf(&self) -> bool {
        &&& self.materials.wf()
        &&& self.assets.wf()
        &&& self.assets.material_allocations == self.materials.size()
        &&& owns_exactly(self.pool@, self.assets.live_meshes@)
        &&& forall|k: int|
            0 <= k < self.pool@.len() ==> bound_consistently(#[trigger] self.pool@[k], self.materials)
        &&& forall|k: int| 0 <= k < self.pool@.len() ==> (#[trigger] self.pool@[k]).handle < self.next_handle
        &&& forall|j: int, k: int|
            0 <= j < k < self.pool@.len() ==> (#[trigger] self.pool@[j]).handle < (#[trigger] self.pool@[k]).handle
    }

    /// An empty pool with an empty cache and nothing allocated.
    pub fn new() -> (r: GeometryRenderer)
        ensures
            r.wf(),
            r.pool@.len() == 0,
            r.next_handle == 0,
            r.assets.next_asset == 0,
            r.assets.mesh_allocations == 0,
            r.assets.material_allocations == 0,
            r.materials.size() == 0,
    {
        GeometryRenderer {
            pool: Vec::new(),
            materials: MaterialCache::new(),
            assets: AssetLedger::new(),
            next_handle: 0,
        }
    }
}

proof fn lemma_consistent_extends(o: PooledGeometry, c0: MaterialCache, c1: MaterialCache)
    requires
        bound_consistently(o, c0),
        cache_extends(c0, c1),
    ensures
        bound_consistently(o, c1),
{
    if let Some(key) = o.command.spec_material_key() {
        if shading_of(o.command.spec_kind()) == Shading::Unlit {
            assert(c0.view_2d().contains_key(key));
        } else {
            assert(c0.view_3d().contains_key(key));
        }
    }
}

/// Reconciles one geometry command against the candidate object at
/// `candidate`, or against a new object when there is none.
///
/// The object takes the command's parameters, a mesh (a shared unit mesh, or
/// for a ring a newly generated one) and a material from the cache. Any mesh it
/// owned before is released once: before the new attachments on the slow path,
/// after them on the fast path.
pub fn process_geometry(renderer: &mut GeometryRenderer, candidate: Option<usize>, command: GeometryCommand)
    requires
        old(renderer).wf(),
        candidate matches Some(i) ==> i < old(renderer).pool@.len(),
        candidate is None ==> old(renderer).next_handle < u64::MAX,
        old(renderer).assets.next_asset + 2 <= u64::MAX,
    ensures
        final(renderer).wf(),
        ({
            let before = match candidate {
                Some(i) => old(renderer).pool@[i as int],
                None => fresh_geometry(old(renderer).next_handle, command),
            };
            let after = match candidate {
                Some(i) => final(renderer).pool@[i as int],
                None => final(renderer).pool@.last(),
            };
            &&& geometry_applied(before, command, after, old(renderer).assets.next_asset)
            &&& match candidate {
                Some(i) => final(renderer).pool@ == old(renderer).pool@.update(i as int, after)
                    && final(renderer).next_handle == old(renderer).next_handle,
                None => final(renderer).pool@ == old(renderer).pool@.push(after)
                    && final(renderer).next_handle == old(renderer).next_handle + 1,
            }
            &&& final(renderer).assets.live_meshes@ == with(
                without(old(renderer).assets.live_meshes@, before.owned.mesh),
                after.owned.mesh,
            )
            &&& final(renderer).assets.mesh_releases == old(renderer).assets.mesh_releases + if before.owned.mesh is Some {
                1int
            } else {
                0int
            }
            &&& final(renderer).assets.mesh_allocations == old(renderer).assets.mesh_allocations + if command is Ring {
                1int
            } else {
                0int
            }
        }),
        cache_extends(old(renderer).materials, final(renderer).materials),
        cache_adds_only(old(renderer).materials, final(renderer).materials, command),
        old(renderer).assets.next_asset <= final(renderer).assets.next_asset <= old(renderer).assets.next_asset + 2,
{
    let before = match candidate {
        Some(i) => renderer.pool[i],
        None => PooledGeometry {
            handle: renderer.next_handle,
            kind: GeometryKind::Unbound,
            staged: None,
            command,
            mesh: None,
            material: None,
            visible: false,
            owned: TransientResources { mesh: None },
        },
    };
    let ghost old_renderer = *renderer;
    let ghost pool0 = renderer.pool@;
    proof {
        if let Some(i) = candidate {
            assert(pool0[i as int] == before);
            if let Some(id) = before.owned.mesh {
                assert(renderer.assets.live_meshes@.contains(id));
            }
        }
    }
    let kind = command.kind();
    let fast = before.kind == kind;
    let stale = before.owned.mesh;
    // Slow path: the old attachments go first.
    if !fast {
        if let Some(id) = stale {
            renderer.assets.release_mesh(id);
        }
    }
    let material = match command.material_key() {
        Some(key) => {
            if kind == GeometryKind::Bound2d {
                let id = renderer.materials.get_2d(key.color, key.texture, &mut renderer.assets);
                Some(MaterialRef { shading: Shading::Unlit, id })
            } else {
                let id = renderer.materials.get_3d(key.color, key.texture, &mut renderer.assets);
                Some(MaterialRef { shading: Shading::Lit, id })
            }
        },
        None => None,
    };
    let owned = if command.is_ring() {
        Some(renderer.assets.allocate_mesh())
    } else {
        None
    };
    let mesh = match owned {
        Some(id) => Some(MeshRef::Owned(id)),
        None => match command.unit_mesh() {
            Some(u) => Some(MeshRef::Unit(u)),
            None => None,
        },
    };
    // Fast path: the stale mesh goes once the new one is in place.
    if fast {
        if let Some(id) = stale {
            renderer.assets.release_mesh(id);
        }
    }
    let after = PooledGeometry {
        handle: before.handle,
        kind: before.kind,
        staged: if fast {
            None
        } else {
            Some(kind)
        },
        command,
        mesh,
        material,
        visible: true,
        owned: TransientResources { mesh: owned },
    };
    proof {
        assert(with(without(old_renderer.assets.live_meshes@, stale), owned) =~= renderer.assets.live_meshes@);
        assert(bound_consistently(after, renderer.materials));
        assert forall|k: int| 0 <= k < pool0.len() implies bound_consistently(
            #[trigger] pool0[k],
            renderer.materials,
        ) by {
            lemma_consistent_extends(pool0[k], old_renderer.materials, renderer.materials);
        }
    }
    match candidate {
        Some(i) => {
            renderer.pool.set(i, after);
            proof {
                lemma_owns_update(pool0, old_renderer.assets.live_meshes@, i as int, after);
                assert forall|k: int| 0 <= k < renderer.pool@.len() implies bound_consistently(
                    #[trigger] renderer.pool@[k],
                    renderer.materials,
                ) by {
                    if k != i {
                        assert(renderer.pool@[k] == pool0[k]);
                    }
                }
            }
        },
        None => {
            renderer.pool.push(after);
            renderer.next_handle = renderer.next_handle + 1;
            proof {
                lemma_owns_push(pool0, old_renderer.assets.live_meshes@, after);
                assert forall|k: int| 0 <= k < renderer.pool@.len() implies bound_consistently(
                    #[trigger] renderer.pool@[k],
                    renderer.materials,
                ) by {
                    if k < pool0.len() {
                        assert(renderer.pool@[k] == pool0[k]);
                    }
                }
            }
        },
    }
}

/// How many of `commands` draw rings, each of which generates a mesh.
pub open spec fn ring_count(commands: Seq<GeometryCommand>) -> nat
    decreases commands.len(),
{
    if commands.len() == 0 {
        0
    } else {
        ring_count(commands.drop_last()) + if commands.last() is Ring {
            1nat
        } else {
            0nat
        }
    }
}

/// The object the `k`-th geometry command of a frame is reconciled against:
/// the `k`-th pooled object, or a new one once the pool is used up.
pub open spec fn geometry_candidate(
    pool: Seq<PooledGeometry>,
    next_handle: u64,
    commands: Seq<GeometryCommand>,
    k: int,
) -> PooledGeometry {
    if k < pool.len() {
        pool[k]
    } else {
        fresh_geometry((next_handle + (k - pool.len())) as u64, commands[k])
    }
}

/// The pool after a frame: one object per command, in command order, each the
/// result of applying that command to its candidate.
pub open spec fn geometry_frame(
    pool: Seq<PooledGeometry>,
    next_handle: u64,
    commands: Seq<GeometryCommand>,
    fresh_from: u64,
    result: Seq<PooledGeometry>,
) -> bool {
    &&& result.len() == commands.len()
    &&& forall|k: int|
        0 <= k < commands.len() ==> geometry_applied(
            geometry_candidate(pool, next_handle, commands, k),
            #[trigger] commands[k],
            result[k],
            fresh_from,
        )
}

proof fn lemma_extends_trans(a: MaterialCache, b: MaterialCache, c: MaterialCache)
    requires
        cache_extends(a, b),
        cache_extends(b, c),
    ensures
        cache_extends(a, c),
{
    assert forall|key: MaterialKey| #[trigger] a.view_2d().contains_key(key) implies c.view_2d().contains_key(key)
        && c.view_2d()[key] == a.view_2d()[key] by {
        assert(b.view_2d().contains_key(key));
    }
    assert forall|key: MaterialKey| #[trigger] a.view_3d().contains_key(key) implies c.view_3d().contains_key(key)
        && c.view_3d()[key] == a.view_3d()[key] by {
        assert(b.view_3d().contains_key(key));
    }
}

/// Reconciles one frame's geometry commands, in order, against the pool.
///
/// The `k`-th command goes to the `k`-th pooled object, or to a new object once
/// the pool is used up. Objects left over are destroyed with every asset they
/// own: geometry keeps no hidden spares.
pub fn render_geometry(renderer: &mut GeometryRenderer, commands: &Vec<GeometryCommand>)
    requires
        old(renderer).wf(),
        old(renderer).assets.next_asset + 2 * commands@.len() <= u64::MAX,
        old(renderer).next_handle + commands@.len() <= u64::MAX,
    ensures
        final(renderer).wf(),
        geometry_frame(
            old(renderer).pool@,
            old(renderer).next_handle,
            commands@,
            old(renderer).assets.next_asset,
            final(renderer).pool@,
        ),
        final(renderer).next_handle == old(renderer).next_handle + created_count(
            old(renderer).pool@.len(),
            commands@.len(),
        ),
        cache_extends(old(renderer).materials, final(renderer).materials),
        cache_adds_only_requested(old(renderer).materials, final(renderer).materials, commands@),
        forall|id: u64| #[trigger]
            final(renderer).assets.live_meshes@.contains(id) ==> old(renderer).assets.next_asset <= id,
        final(renderer).assets.mesh_allocations == old(renderer).assets.mesh_allocations + ring_count(commands@),
{
    let ghost old_pool = renderer.pool@;
    let ghost old_next = renderer.next_handle;
    let ghost fresh_from = renderer.assets.next_asset;
    let ghost old_materials = renderer.materials;
    let ghost old_allocations = renderer.assets.mesh_allocations;
    let old_len = renderer.pool.len();
    let n = commands.len();
    let mut k: usize = 0;
    while k < n
        invariant
            renderer.wf(),
            0 <= k <= n,
            n == commands@.len(),
            old_len == old_pool.len(),
            renderer.pool@.len() == if k < old_len {
                old_len as int
            } else {
                k as int
            },
            forall|j: int|
                0 <= j < k ==> geometry_applied(
                    geometry_candidate(old_pool, old_next, commands@, j),
                    #[trigger] commands@[j],
                    renderer.pool@[j],
                    fresh_from,
                ),
            forall|j: int| k <= j < old_len ==> #[trigger] renderer.pool@[j] == old_pool[j],
            renderer.next_handle == old_next + created_count(old_len as nat, k as nat),
            fresh_from <= renderer.assets.next_asset <= fresh_from + 2 * k,
            fresh_from + 2 * n <= u64::MAX,
            old_next + n <= u64::MAX,
            cache_extends(old_materials, renderer.materials),
            cache_adds_only_requested(old_materials, renderer.materials, commands@.take(k as int)),
            renderer.assets.mesh_allocations == old_allocations + ring_count(commands@.take(k as int)),
        decreases n - k,
    {
        let ghost mid_pool = renderer.pool@;
        let ghost mid_materials = renderer.materials;
        let candidate = if k < old_len {
            Some(k)
        } else {
            None
        };
        process_geometry(renderer, candidate, commands[k]);
        proof {
            lemma_extends_trans(old_materials, mid_materials, renderer.materials);
            let taken = commands@.take(k + 1);
            assert(taken.drop_last() == commands@.take(k as int));
            assert forall|sh: Shading, key: MaterialKey| #[trigger]
                renderer.materials.view_of(sh).contains_key(key) implies old_materials.view_of(sh).contains_key(key)
                || exists|i: int|
                0 <= i < taken.len() && (#[trigger] taken[i]).spec_material_key() == Some(key) && sh
                    == shading_of(taken[i].spec_kind()) by {
                if !mid_materials.view_of(sh).contains_key(key) {
                    assert(taken[k as int] == commands@[k as int]);
                } else if !old_materials.view_of(sh).contains_key(key) {
                    let i = choose|i: int|
                        0 <= i < k && (#[trigger] commands@.take(k as int)[i]).spec_material_key() == Some(key)
                            && sh == shading_of(commands@.take(k as int)[i].spec_kind());
                    assert(taken[i] == commands@.take(k as int)[i]);
                }
            }
            assert forall|j: int|
                0 <= j < k + 1 implies geometry_applied(
                geometry_candidate(old_pool, old_next, commands@, j),
                #[trigger] commands@[j],
                renderer.pool@[j],
                fresh_from,
            ) by {
                if j < k {
                    assert(renderer.pool@[j] == mid_pool[j]);
                }
            }
            assert forall|j: int| k + 1 <= j < old_len implies #[trigger] renderer.pool@[j] == old_pool[j] by {
                assert(renderer.pool@[j] == mid_pool[j]);
            }
        }
        k = k + 1;
    }
    let ghost applied = renderer.pool@;
    assert(commands@.take(n as int) == commands@);
    while renderer.pool.len() > n
        invariant
            renderer.wf(),
            n <= renderer.pool@.len(),
            n == commands@.len(),
            forall|j: int| 0 <= j < n ==> #[trigger] renderer.pool@[j] == applied[j],
            renderer.next_handle == old_next + created_count(old_len as nat, n as nat),
            cache_extends(old_materials, renderer.materials),
            cache_adds_only_requested(old_materials, renderer.materials, commands@),
            renderer.assets.mesh_allocations == old_allocations + ring_count(commands@),
        decreases renderer.pool@.len(),
    {
        let ghost before = *renderer;
        proof {
            lemma_owns_drop_last(renderer.pool@, renderer.assets.live_meshes@);
        }
        let last = renderer.pool.pop().unwrap();
        if let Some(id) = last.owned.mesh {
            renderer.assets.release_mesh(id);
        }
        proof {
            assert(renderer.pool@ == before.pool@.drop_last());
            assert forall|j: int| 0 <= j < renderer.pool@.len() implies bound_consistently(
                #[trigger] renderer.pool@[j],
                renderer.materials,
            ) by {
                assert(renderer.pool@[j] == before.pool@[j]);
            }
            assert forall|j: int| 0 <= j < n implies #[trigger] renderer.pool@[j] == applied[j] by {
                assert(renderer.pool@[j] == before.pool@[j]);
            }
        }
    }
    proof {
        assert forall|j: int|
            0 <= j < commands@.len() implies geometry_applied(
            geometry_candidate(old_pool, old_next, commands@, j),
            #[trigger] commands@[j],
            renderer.pool@[j],
            fresh_from,
        ) by {
            assert(renderer.pool@[j] == applied[j]);
        }
        assert forall|id: u64| #[trigger] renderer.assets.live_meshes@.contains(id) implies fresh_from <= id by {
            let j = choose|j: int|
                0 <= j < renderer.pool@.len() && (#[trigger] renderer.pool@[j]).owned.mesh == Some(id);
            assert(geometry_applied(
                geometry_candidate(old_pool, old_next, commands@, j),
                commands@[j],
                renderer.pool@[j],
                fresh_from,
            ));
        }
    }
}

/// An object after its staged change of attachments has landed.
pub open spec fn settled(o: PooledGeometry) -> PooledGeometry {
    match o.staged {
        Some(kind) => PooledGeometry { kind, staged: None, ..o },
        None => o,
    }
}

/// Lands every staged change of attachments: the frame boundary at which
/// structural changes requested during the previous frame take effect.
pub fn apply_staged_geometry(renderer: &mut GeometryRenderer)
    requires
        old(renderer).wf(),
    ensures
        final(renderer).wf(),
        final(renderer).pool@ == old(renderer).pool@.map_values(|o: PooledGeometry| settled(o)),
        final(renderer).materials == old(renderer).materials,
        final(renderer).assets == old(renderer).assets,
        final(renderer).next_handle == old(renderer).next_handle,
{
    let ghost pool0 = renderer.pool@;
    let mut k: usize = 0;
    while k < renderer.pool.len()
        invariant
            renderer.wf(),
            0 <= k <= renderer.pool@.len(),
            renderer.pool@.len() == pool0.len(),
            forall|j: int| 0 <= j < k ==> #[trigger] renderer.pool@[j] == settled(pool0[j]),
            forall|j: int| k <= j < pool0.len() ==> #[trigger] renderer.pool@[j] == pool0[j],
            renderer.materials == old(renderer).materials,
            renderer.assets == old(renderer).assets,
            renderer.next_handle == old(renderer).next_handle,
        decreases renderer.pool@.len() - k,
    {
        let o = renderer.pool[k];
        if let Some(kind) = o.staged {
            let ghost mid = renderer.pool@;
            let landed = PooledGeometry { kind, staged: None, ..o };
            renderer.pool.set(k, landed);
            proof {
                lemma_owns_same(mid, renderer.assets.live_meshes@, k as int, landed);
                assert forall|j: int| 0 <= j < renderer.pool@.len() implies bound_consistently(
                    #[trigger] renderer.pool@[j],
                    renderer.materials,
                ) by {
                    if j != k {
                        assert(renderer.pool@[j] == mid[j]);
                    }
                }
            }
        }
        k = k + 1;
    }
    assert(renderer.pool@ =~= pool0.map_values(|o: PooledGeometry| settled(o)));
}

} // verus!
