use breeze::geometry::{GeometryCommand, GeometryKind, MeshRef, UnitMesh};
use breeze::renderer::{render_graphics, UnifiedRenderer};
use breeze::values::{HashableColor, QuatBits, Vec2Bits, Vec3Bits};

fn color(r: f32, g: f32, b: f32, a: f32) -> HashableColor {
    HashableColor { r: r.to_bits(), g: g.to_bits(), b: b.to_bits(), a: a.to_bits() }
}

fn v2(x: f32, y: f32) -> Vec2Bits {
    Vec2Bits { x: x.to_bits(), y: y.to_bits() }
}

fn v3(x: f32, y: f32, z: f32) -> Vec3Bits {
    Vec3Bits { x: x.to_bits(), y: y.to_bits(), z: z.to_bits() }
}

fn identity() -> QuatBits {
    QuatBits { x: 0f32.to_bits(), y: 0f32.to_bits(), z: 0f32.to_bits(), w: 1f32.to_bits() }
}

fn circle(radius: f32, c: HashableColor) -> GeometryCommand {
    GeometryCommand::Circle { position: v2(0.0, 0.0), radius: radius.to_bits(), color: c, texture: None, layer: 0 }
}

fn cube(size: f32, c: HashableColor) -> GeometryCommand {
    GeometryCommand::Cube {
        position: v3(1.0, 2.0, 3.0),
        rotation: identity(),
        size: size.to_bits(),
        color: c,
        texture: None,
        layer: 1,
    }
}

fn ring(radius: f32, thickness: f32, c: HashableColor) -> GeometryCommand {
    GeometryCommand::Ring {
        position: v2(5.0, 5.0),
        radius: radius.to_bits(),
        thickness: thickness.to_bits(),
        color: c,
        layer: 0,
    }
}

fn frame(r: &mut UnifiedRenderer, commands: &[GeometryCommand]) {
    for c in commands {
        r.enqueue_geometry(*c);
    }
    assert!(r.has_headroom());
    render_graphics(r);
}

#[test]
fn three_circles_then_two() {
    let red = color(1.0, 0.0, 0.0, 1.0);
    let mut r = UnifiedRenderer::new();
    frame(&mut r, &[circle(10.0, red), circle(20.0, red), circle(30.0, red)]);
    assert_eq!(r.geometry.pool.len(), 3);
    assert_eq!(r.geometry.next_handle, 3);
    assert_eq!(r.geometry.assets.material_allocations, 1);
    assert_eq!(r.geometry.materials.cache_2d.len(), 1);
    let shared = r.geometry.pool[0].material;
    assert!(r.geometry.pool.iter().all(|o| o.material == shared));

    frame(&mut r, &[circle(10.0, red), circle(20.0, red)]);
    assert_eq!(r.geometry.pool.len(), 2);
    assert_eq!(r.geometry.next_handle, 3);
    assert_eq!(r.geometry.pool[0].handle, 0);
    assert_eq!(r.geometry.pool[1].handle, 1);
    assert_eq!(r.geometry.assets.material_allocations, 1);
    assert_eq!(r.geometry.pool[0].material, shared);
    assert_eq!(r.geometry.pool[1].material, shared);
    assert!(r.queue.0.is_empty());
}

#[test]
fn pool_stabilizes_after_first_frame() {
    let blue = color(0.0, 0.0, 1.0, 1.0);
    let mut r = UnifiedRenderer::new();
    for f in 0..6 {
        let size = 1.0 + f as f32;
        frame(&mut r, &[cube(size, blue), cube(size, blue), cube(size, blue), cube(size, blue)]);
        assert_eq!(r.geometry.next_handle, 4);
        assert_eq!(r.geometry.pool.len(), 4);
        if f >= 1 {
            assert!(r.geometry.pool.iter().all(|o| o.kind == GeometryKind::Bound3d && o.staged.is_none()));
        }
    }
    let handles: Vec<u64> = r.geometry.pool.iter().map(|o| o.handle).collect();
    assert_eq!(handles, vec![0, 1, 2, 3]);
}

#[test]
fn new_object_lands_its_kind_next_frame() {
    let white = color(1.0, 1.0, 1.0, 1.0);
    let mut r = UnifiedRenderer::new();
    frame(&mut r, &[circle(1.0, white)]);
    assert_eq!(r.geometry.pool[0].kind, GeometryKind::Unbound);
    assert_eq!(r.geometry.pool[0].staged, Some(GeometryKind::Bound2d));
    assert_eq!(r.geometry.pool[0].mesh, Some(MeshRef::Unit(UnitMesh::Circle)));
    frame(&mut r, &[circle(2.0, white)]);
    assert_eq!(r.geometry.pool[0].kind, GeometryKind::Bound2d);
    assert_eq!(r.geometry.pool[0].staged, None);
}

#[test]
fn kind_switch_is_staged_and_lands_next_frame() {
    let white = color(1.0, 1.0, 1.0, 1.0);
    let mut r = UnifiedRenderer::new();
    frame(&mut r, &[circle(1.0, white)]);
    frame(&mut r, &[circle(1.0, white)]);
    frame(&mut r, &[cube(1.0, white)]);
    let o = r.geometry.pool[0];
    assert_eq!(o.kind, GeometryKind::Bound2d);
    assert_eq!(o.staged, Some(GeometryKind::Bound3d));
    assert_eq!(o.mesh, Some(MeshRef::Unit(UnitMesh::Cuboid)));
    assert_eq!(o.command, cube(1.0, white));
    frame(&mut r, &[cube(2.0, white)]);
    assert_eq!(r.geometry.pool[0].kind, GeometryKind::Bound3d);
    assert_eq!(r.geometry.pool[0].staged, None);
    assert_eq!(r.geometry.pool[0].handle, 0);
}

#[test]
fn ring_regenerates_and_releases_its_mesh() {
    let green = color(0.0, 1.0, 0.0, 1.0);
    let mut r = UnifiedRenderer::new();
    frame(&mut r, &[ring(10.0, 2.0, green)]);
    let first = r.geometry.pool[0].owned.mesh.expect("a ring owns its mesh");
    assert_eq!(r.geometry.pool[0].mesh, Some(MeshRef::Owned(first)));
    assert_eq!(r.geometry.assets.mesh_allocations, 1);
    assert_eq!(r.geometry.assets.mesh_releases, 0);

    frame(&mut r, &[ring(10.0, 3.0, green)]);
    let second = r.geometry.pool[0].owned.mesh.expect("a ring owns its mesh");
    assert_ne!(first, second);
    assert_eq!(r.geometry.pool[0].mesh, Some(MeshRef::Owned(second)));
    assert_eq!(r.geometry.assets.mesh_allocations, 2);
    assert_eq!(r.geometry.assets.mesh_releases, 1);
    assert_eq!(r.geometry.pool[0].handle, 0);
}

#[test]
fn alternating_kinds_do_not_leak_meshes() {
    let c = color(0.5, 0.5, 0.5, 1.0);
    let mut r = UnifiedRenderer::new();
    for f in 0..40 {
        if f % 2 == 0 {
            frame(&mut r, &[ring(4.0, 1.0, c), ring(5.0, 1.0, c), ring(6.0, 1.0, c)]);
        } else {
            frame(&mut r, &[cube(1.0, c), cube(1.0, c), cube(1.0, c)]);
        }
        let a = &r.geometry.assets;
        let live = a.mesh_allocations - a.mesh_releases;
        let owned = r.geometry.pool.iter().filter(|o| o.owned.mesh.is_some()).count() as u64;
        assert_eq!(live, owned);
        assert!(live <= r.geometry.pool.len() as u64);
        if f % 2 == 1 {
            assert_eq!(live, 0);
        }
    }
    assert_eq!(r.geometry.assets.mesh_allocations, 60);
    assert_eq!(r.geometry.assets.mesh_releases, 60);
    assert_eq!(r.geometry.next_handle, 3);
}

#[test]
fn leftover_geometry_is_destroyed_with_its_meshes() {
    let c = color(0.1, 0.2, 0.3, 1.0);
    let mut r = UnifiedRenderer::new();
    frame(&mut r, &[circle(1.0, c), ring(2.0, 1.0, c), ring(3.0, 1.0, c)]);
    assert_eq!(r.geometry.assets.mesh_allocations, 2);
    frame(&mut r, &[]);
    assert!(r.geometry.pool.is_empty());
    assert_eq!(r.geometry.assets.mesh_releases, 2);
    assert_eq!(r.geometry.assets.material_allocations, 1);
}

#[test]
fn lines_and_rings_are_untextured() {
    let c = color(0.2, 0.2, 0.2, 1.0);
    let line = GeometryCommand::Line { start: v2(0.0, 0.0), end: v2(3.0, 4.0), thickness: 1f32.to_bits(), color: c, layer: 2 };
    let textured = GeometryCommand::Rect { position: v2(0.0, 0.0), size: v2(1.0, 1.0), color: c, texture: Some(9), layer: 2 };
    let plain = GeometryCommand::Rect { position: v2(0.0, 0.0), size: v2(1.0, 1.0), color: c, texture: None, layer: 2 };
    let mut r = UnifiedRenderer::new();
    frame(&mut r, &[line, textured, plain, ring(1.0, 0.5, c)]);
    assert_eq!(r.geometry.assets.material_allocations, 2);
    assert_eq!(r.geometry.pool[0].material, r.geometry.pool[2].material);
    assert_eq!(r.geometry.pool[0].material, r.geometry.pool[3].material);
    assert_ne!(r.geometry.pool[0].material, r.geometry.pool[1].material);
    assert_eq!(r.geometry.pool[0].mesh, Some(MeshRef::Unit(UnitMesh::Rect)));
    assert_eq!(line.layer(), 2);
}

#[test]
fn models_carry_no_material() {
    let model = GeometryCommand::Model { position: v3(0.0, 0.0, 0.0), rotation: identity(), scale: v3(1.0, 1.0, 1.0), scene: 42, layer: 0 };
    let mut r = UnifiedRenderer::new();
    frame(&mut r, &[model]);
    let o = r.geometry.pool[0];
    assert_eq!(o.staged, Some(GeometryKind::BoundModel));
    assert_eq!(o.material, None);
    assert_eq!(o.mesh, None);
    assert_eq!(r.geometry.assets.next_asset, 0);
}

#[test]
fn unit_meshes_of_each_primitive() {
    let c = color(1.0, 1.0, 1.0, 1.0);
    let q = identity();
    let p = v3(0.0, 0.0, 0.0);
    let one = 1f32.to_bits();
    assert_eq!(GeometryCommand::Sphere { position: p, radius: one, color: c, texture: None, layer: 0 }.unit_mesh(), Some(UnitMesh::Sphere));
    assert_eq!(GeometryCommand::Cylinder { position: p, rotation: q, radius: one, height: one, color: c, texture: None, layer: 0 }.unit_mesh(), Some(UnitMesh::Cylinder));
    assert_eq!(GeometryCommand::Cone { position: p, rotation: q, radius: one, height: one, color: c, texture: None, layer: 0 }.unit_mesh(), Some(UnitMesh::Cone));
    assert_eq!(GeometryCommand::Torus { position: p, rotation: q, radius: one, tube_radius: one, color: c, texture: None, layer: 0 }.unit_mesh(), Some(UnitMesh::Torus));
    assert_eq!(GeometryCommand::Plane { position: p, rotation: q, size: one, color: c, texture: None, layer: 0 }.unit_mesh(), Some(UnitMesh::Plane));
    assert_eq!(GeometryCommand::Quad { position: p, rotation: q, size: v2(1.0, 2.0), color: c, texture: None, layer: 0 }.unit_mesh(), Some(UnitMesh::Plane));
    assert_eq!(GeometryCommand::Cuboid { position: p, rotation: q, size: p, color: c, texture: None, layer: 0 }.unit_mesh(), Some(UnitMesh::Cuboid));
    assert_eq!(ring(1.0, 1.0, c).unit_mesh(), None);
    assert_eq!(ring(1.0, 1.0, c).kind(), GeometryKind::Bound2d);
    assert_eq!(cube(1.0, c).kind(), GeometryKind::Bound3d);
}
