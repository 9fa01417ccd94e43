use breeze::lights::{LightCommand, LightType};
use breeze::renderer::{render_graphics, UnifiedRenderer};
use breeze::sprite::SpriteCommand;
use breeze::text::TextCommand;
use breeze::values::{HashableColor, Vec2Bits, Vec3Bits};

fn color(r: f32, g: f32, b: f32, a: f32) -> HashableColor {
    HashableColor { r: r.to_bits(), g: g.to_bits(), b: b.to_bits(), a: a.to_bits() }
}

fn sprite(x: f32, y: f32) -> SpriteCommand {
    SpriteCommand {
        image: 11,
        position: Vec2Bits { x: x.to_bits(), y: y.to_bits() },
        scale: Vec2Bits { x: 1f32.to_bits(), y: 1f32.to_bits() },
        color: color(1.0, 1.0, 1.0, 1.0),
        layer: 0,
    }
}

fn label(text: &str, size: f32) -> TextCommand {
    TextCommand {
        text: text.to_string(),
        font: None,
        position: Vec2Bits { x: 0f32.to_bits(), y: 0f32.to_bits() },
        size: size.to_bits(),
        color: color(0.0, 0.0, 0.0, 1.0),
        layer: 0,
    }
}

fn point_light() -> LightCommand {
    LightCommand::Point {
        position: Vec3Bits { x: 0f32.to_bits(), y: 5f32.to_bits(), z: 0f32.to_bits() },
        color: color(1.0, 1.0, 1.0, 1.0),
        intensity: 1000f32.to_bits(),
        radius: 20f32.to_bits(),
        shadows: true,
        layer: 0,
    }
}

fn sun() -> LightCommand {
    LightCommand::Directional {
        direction: Vec3Bits { x: 0f32.to_bits(), y: (-1f32).to_bits(), z: 0f32.to_bits() },
        color: color(1.0, 0.9, 0.8, 1.0),
        illuminance: 10000f32.to_bits(),
        shadows: true,
        layer: 0,
    }
}

#[test]
fn same_sprite_every_frame_writes_nothing_after_the_first() {
    let mut r = UnifiedRenderer::new();
    r.enqueue_sprite(sprite(1.0, 2.0));
    render_graphics(&mut r);
    assert_eq!(r.sprites.pool.len(), 1);
    assert_eq!(r.sprites.pool[0].writes, 0);
    let first = r.sprites.pool[0];
    for _ in 0..3 {
        r.enqueue_sprite(sprite(1.0, 2.0));
        render_graphics(&mut r);
        assert_eq!(r.sprites.pool.len(), 1);
        assert_eq!(r.sprites.pool[0], first);
        assert_eq!(r.sprites.pool[0].writes, 0);
    }
    assert_eq!(r.sprites.next_handle, 1);
}

#[test]
fn moved_sprite_writes_only_its_position() {
    let mut r = UnifiedRenderer::new();
    r.enqueue_sprite(sprite(1.0, 2.0));
    render_graphics(&mut r);
    r.enqueue_sprite(sprite(3.0, 2.0));
    render_graphics(&mut r);
    assert_eq!(r.sprites.pool[0].writes, 1);
    assert_eq!(r.sprites.pool[0].position.x, 3f32.to_bits());
    assert_eq!(r.sprites.pool[0].handle, 0);
}

#[test]
fn unused_sprites_are_hidden_up_to_the_reserve() {
    let mut r = UnifiedRenderer::new();
    for i in 0..105 {
        r.enqueue_sprite(sprite(i as f32, 0.0));
    }
    render_graphics(&mut r);
    assert_eq!(r.sprites.pool.len(), 105);
    r.enqueue_sprite(sprite(0.0, 0.0));
    render_graphics(&mut r);
    assert_eq!(r.sprites.pool.len(), 101);
    assert!(r.sprites.pool[0].visible);
    assert!(r.sprites.pool[1..].iter().all(|o| !o.visible && o.writes == 1));
    r.enqueue_sprite(sprite(0.0, 0.0));
    r.enqueue_sprite(sprite(0.0, 0.0));
    render_graphics(&mut r);
    assert_eq!(r.sprites.pool.len(), 101);
    assert!(r.sprites.pool[1].visible);
    assert_eq!(r.sprites.pool[1].handle, 1);
    assert_eq!(r.sprites.next_handle, 105);
}

#[test]
fn text_compares_content_by_value() {
    let mut r = UnifiedRenderer::new();
    r.enqueue_text(label("score: 1", 16.0));
    render_graphics(&mut r);
    r.enqueue_text(label("score: 1", 16.0));
    render_graphics(&mut r);
    assert_eq!(r.texts.pool[0].writes, 0);
    r.enqueue_text(label("score: 2", 16.0));
    render_graphics(&mut r);
    assert_eq!(r.texts.pool[0].writes, 1);
    assert_eq!(r.texts.pool[0].text, "score: 2");
    r.enqueue_text(label("score: 2", 24.0));
    render_graphics(&mut r);
    assert_eq!(r.texts.pool[0].writes, 1);
    assert_eq!(r.texts.pool[0].size, 24f32.to_bits());
    render_graphics(&mut r);
    assert_eq!(r.texts.pool.len(), 1);
    assert!(!r.texts.pool[0].visible);
    assert_eq!(r.texts.next_handle, 1);
}

#[test]
fn point_light_turning_directional_lands_a_frame_late() {
    let mut r = UnifiedRenderer::new();
    r.enqueue_light(point_light());
    render_graphics(&mut r);
    assert_eq!(r.lights.pool.len(), 1);
    assert_eq!(r.lights.pool[0].light_type, None);
    assert_eq!(r.lights.pool[0].staged, Some(LightType::Point));

    r.enqueue_light(sun());
    render_graphics(&mut r);
    assert_eq!(r.lights.pool.len(), 1);
    assert_eq!(r.lights.pool[0].light_type, Some(LightType::Point));
    assert_eq!(r.lights.pool[0].staged, Some(LightType::Directional));
    assert_eq!(r.lights.pool[0].settings, sun());

    render_graphics(&mut r);
    assert_eq!(r.lights.pool[0].light_type, Some(LightType::Directional));
    assert_eq!(r.lights.pool[0].staged, None);
    assert!(!r.lights.pool[0].visible);
    assert_eq!(r.lights.next_handle, 1);
    assert!(r.geometry.pool.is_empty() && r.sprites.pool.is_empty() && r.texts.pool.is_empty());
}

#[test]
fn matching_light_updates_in_place() {
    let mut r = UnifiedRenderer::new();
    r.enqueue_light(sun());
    render_graphics(&mut r);
    r.enqueue_light(sun());
    render_graphics(&mut r);
    assert_eq!(r.lights.pool[0].light_type, Some(LightType::Directional));
    assert_eq!(r.lights.pool[0].staged, None);
    assert!(r.lights.pool[0].visible);
    assert_eq!(sun().light_type(), LightType::Directional);
}

#[test]
fn fresh_renderer_has_headroom() {
    let r = UnifiedRenderer::new();
    assert!(r.has_headroom());
    assert!(r.queue.0.is_empty());
}

#[test]
fn requests_bind_to_objects_by_position() {
    let mut r = UnifiedRenderer::new();
    r.enqueue_sprite(sprite(1.0, 1.0));
    r.enqueue_text(label("a", 10.0));
    r.enqueue_sprite(sprite(2.0, 2.0));
    r.enqueue_text(label("b", 10.0));
    render_graphics(&mut r);
    r.enqueue_text(label("b", 10.0));
    r.enqueue_sprite(sprite(2.0, 2.0));
    render_graphics(&mut r);
    assert_eq!(r.sprites.pool.len(), 2);
    assert_eq!(r.sprites.pool[0].handle, 0);
    assert_eq!(r.sprites.pool[0].position.x, 2f32.to_bits());
    assert!(!r.sprites.pool[1].visible);
    assert_eq!(r.texts.pool[0].handle, 0);
    assert_eq!(r.texts.pool[0].text, "b");
    assert!(!r.texts.pool[1].visible);
}
