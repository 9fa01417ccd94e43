use breeze::assets::AssetLedger;
use breeze::commands::{split_commands, GraphicsCommand, GraphicsQueue};
use breeze::geometry::GeometryCommand;
use breeze::lights::LightCommand;
use breeze::material::{MaterialCache, MaterialKey};
use breeze::pool::{kept_len, MAX_RESERVE};
use breeze::sprite::SpriteCommand;
use breeze::text::TextCommand;
use breeze::values::{HashableColor, Vec2Bits, Vec3Bits};

fn color(r: f32, g: f32, b: f32, a: f32) -> HashableColor {
    HashableColor { r: r.to_bits(), g: g.to_bits(), b: b.to_bits(), a: a.to_bits() }
}

#[test]
fn equal_keys_share_one_material() {
    let mut cache = MaterialCache::new();
    let mut assets = AssetLedger::new();
    let c = color(0.25, 0.5, 0.75, 1.0);
    let a = cache.get_2d(c, Some(7), &mut assets);
    let b = cache.get_2d(c, Some(7), &mut assets);
    assert_eq!(a, b);
    assert_eq!(assets.material_allocations, 1);
    assert_eq!(cache.cache_2d.len(), 1);
}

#[test]
fn keys_differing_in_one_bit_are_distinct() {
    let mut cache = MaterialCache::new();
    let mut assets = AssetLedger::new();
    let c = color(0.25, 0.5, 0.75, 1.0);
    let d = HashableColor { a: c.a ^ 1, ..c };
    let a = cache.get_3d(c, None, &mut assets);
    let b = cache.get_3d(d, None, &mut assets);
    assert_ne!(a, b);
    let t = cache.get_3d(c, Some(1), &mut assets);
    assert_ne!(a, t);
    assert_eq!(assets.material_allocations, 3);
    assert_eq!(cache.get_3d(d, None, &mut assets), b);
    assert_eq!(assets.material_allocations, 3);
}

#[test]
fn unlit_and_lit_caches_are_separate() {
    let mut cache = MaterialCache::new();
    let mut assets = AssetLedger::new();
    let c = color(1.0, 1.0, 1.0, 1.0);
    let flat = cache.get_2d(c, None, &mut assets);
    let lit = cache.get_3d(c, None, &mut assets);
    assert_ne!(flat, lit);
    assert_eq!(cache.cache_2d.len(), 1);
    assert_eq!(cache.cache_3d.len(), 1);
    assert_eq!(MaterialKey { color: c, texture: None }, cache.cache_2d[0].0);
}

#[test]
fn ledger_counts_allocations_and_releases() {
    let mut assets = AssetLedger::new();
    let m = assets.allocate_mesh();
    let n = assets.allocate_material();
    assert_eq!((m, n), (0, 1));
    assets.release_mesh(m);
    assert_eq!(assets.next_asset, 2);
    assert_eq!(assets.mesh_allocations, 1);
    assert_eq!(assets.mesh_releases, 1);
    assert_eq!(assets.material_allocations, 1);
}

#[test]
fn queue_drains_in_order_and_empties() {
    let c = color(1.0, 0.0, 0.0, 1.0);
    let g = GeometryCommand::Circle { position: Vec2Bits { x: 0, y: 0 }, radius: 1f32.to_bits(), color: c, texture: None, layer: 0 };
    let s = SpriteCommand { image: 3, position: Vec2Bits { x: 0, y: 0 }, scale: Vec2Bits { x: 0, y: 0 }, color: c, layer: 1 };
    let t = TextCommand { text: "hi".to_string(), font: None, position: Vec2Bits { x: 0, y: 0 }, size: 16f32.to_bits(), color: c, layer: 2 };
    let l = LightCommand::Point { position: Vec3Bits { x: 0, y: 0, z: 0 }, color: c, intensity: 1, radius: 2, shadows: true, layer: 0 };
    let mut q = GraphicsQueue::new();
    q.enqueue(GraphicsCommand::Text(t.clone()));
    q.enqueue(GraphicsCommand::Geometry(g));
    q.enqueue(GraphicsCommand::Light(l));
    q.enqueue(GraphicsCommand::Sprite(s));
    q.enqueue(GraphicsCommand::Geometry(g));
    let drained = q.drain();
    assert!(q.0.is_empty());
    assert_eq!(drained.len(), 5);
    assert_eq!(drained[0], GraphicsCommand::Text(t.clone()));
    assert_eq!(drained[3], GraphicsCommand::Sprite(s));
    let (geo, sprites, texts, lights) = split_commands(&drained);
    assert_eq!(geo, vec![g, g]);
    assert_eq!(sprites, vec![s]);
    assert_eq!(texts, vec![t]);
    assert_eq!(lights, vec![l]);
    assert!(q.drain().is_empty());
}

#[test]
fn kept_len_values() {
    assert_eq!(MAX_RESERVE, 100);
    assert_eq!(kept_len(3, 5), 5);
    assert_eq!(kept_len(5, 5), 5);
    assert_eq!(kept_len(50, 5), 50);
    assert_eq!(kept_len(105, 5), 105);
    assert_eq!(kept_len(106, 5), 105);
    assert_eq!(kept_len(1000, 0), 100);
}
