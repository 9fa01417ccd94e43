use vstd::prelude::*;

use crate::commands::{
    geometry_of, lemma_domain_counts, lights_of, split_commands, sprites_of, texts_of, GraphicsCommand,
    GraphicsQueue,
};
use crate::geometry::{
    apply_staged_geometry, cache_adds_only_requested, cache_extends, geometry_frame, render_geometry, settled, GeometryCommand,
    GeometryRenderer, PooledGeometry, ring_count,
};
use crate::lights::{apply_staged_lights, light_frame, light_settled, render_lights, LightCommand, LightRenderer, PooledLight};
use crate::pool::created_count;
use crate::sprite::{render_sprites, sprite_frame, SpriteCommand, SpriteRenderer};
use crate::text::{render_text, text_frame, TextCommand, TextRenderer};

verus! {

/// The whole retained scene: the queue of this frame's requests and the four
/// domains that reconcile them.
pub struct UnifiedRenderer {
    pub queue: GraphicsQueue,
    pub geometry: GeometryRenderer,
    pub sprites: SpriteRenderer,
    pub texts: TextRenderer,
    pub lights: LightRenderer,
}

impl UnifiedRenderer {
    pub open spec fn wf(&self) -> bool {
        self.geometry.wf()
    }

    /// The identity counters cannot run out during the next frame.
    pub open spec fn spec_has_headroom(&self) -> bool {
        let n = self.queue.0@.len();
        &&& self.geometry.assets.next_asset + 2 * n <= u64::MAX
        &&& self.geometry.next_handle + n <= u64::MAX
        &&& self.sprites.next_handle + n <= u64::MAX
        &&& self.texts.next_handle + n <= u64::MAX
        &&& self.lights.next_handle + n <= u64::MAX
    }

    /// Whether the identity counters cannot run out during the next frame.
    #[verifier::when_used_as_spec(spec_has_headroom)]
    pub fn has_headroom(&self) -> (r: bool)
        ensures
            r == self.spec_has_headroom(),
    {
        let n = self.queue.0.len() as u64;
        let room = u64::MAX;
        n <= room / 2
            && self.geometry.assets.next_asset <= room - 2 * n
            && self.geometry.next_handle <= room - n
            && self.sprites.next_handle <= room - n
            && self.texts.next_handle <= room - n
            && self.lights.next_handle <= room - n
    }

    /// An empty scene with an empty queue.
    pub fn new() -> (r: UnifiedRenderer)
        ensures
            r.wf(),
            r.queue.0@ == Seq::<GraphicsCommand>::empty(),
            r.geometry.pool@.len() == 0,
            r.geometry.next_handle == 0,
            r.geometry.assets.next_asset == 0,
            r.geometry.materials.size() == 0,
            r.sprites.pool@.len() == 0,
            r.sprites.next_handle == 0,
            r.texts.pool@.len() == 0,
            r.texts.next_handle == 0,
            r.lights.pool@.len() == 0,
            r.lights.next_handle == 0,
    {
        UnifiedRenderer {
            queue: GraphicsQueue::new(),
            geometry: GeometryRenderer::new(),
            sprites: SpriteRenderer { pool: Vec::new(), next_handle: 0 },
            texts: TextRenderer { pool: Vec::new(), next_handle: 0 },
            lights: LightRenderer { pool: Vec::new(), next_handle: 0 },
        }
    }

    /// Queues a geometry request for this frame.
    pub fn enqueue_geometry(&mut self, command: GeometryCommand)
        ensures
            final(self).queue.0@ == old(self).queue.0@.push(GraphicsCommand::Geometry(command)),
            final(self).geometry == old(self).geometry,
            final(self).sprites == old(self).sprites,
            final(self).texts == old(self).texts,
            final(self).lights == old(self).lights,
    {
        self.queue.enqueue(GraphicsCommand::Geometry(command));
    }

    /// Queues a sprite request for this frame.
    pub fn enqueue_sprite(&mut self, command: SpriteCommand)
        ensures
            final(self).queue.0@ == old(self).queue.0@.push(GraphicsCommand::Sprite(command)),
            final(self).geometry == old(self).geometry,
            final(self).sprites == old(self).sprites,
            final(self).texts == old(self).texts,
            final(self).lights == old(self).lights,
    {
        self.queue.enqueue(GraphicsCommand::Sprite(command));
    }

    /// Queues a text request for this frame.
    pub fn enqueue_text(&mut self, command: TextCommand)
        ensures
            final(self).queue.0@ == old(self).queue.0@.push(GraphicsCommand::Text(command)),
            final(self).geometry == old(self).geometry,
            final(self).sprites == old(self).sprites,
            final(self).texts == old(self).texts,
            final(self).lights == old(self).lights,
    {
        self.queue.enqueue(GraphicsCommand::Text(command));
    }

    /// Queues a light request for this frame.
    pub fn enqueue_light(&mut self, command: LightCommand)
        ensures
            final(self).queue.0@ == old(self).queue.0@.push(GraphicsCommand::Light(command)),
            final(self).geometry == old(self).geometry,
            final(self).sprites == old(self).sprites,
            final(self).texts == old(self).texts,
            final(self).lights == old(self).lights,
    {
        self.queue.enqueue(GraphicsCommand::Light(command));
    }
}

/// What one frame does to the renderer `r0`, leaving `r1`.
///
/// Structural changes staged during the previous frame land first. Then the
/// queue is drained once and each domain reconciles its own requests in
/// enqueue order against its pool.
pub open spec fn frame_post(r0: UnifiedRenderer, r1: UnifiedRenderer) -> bool {
    let q = r0.queue.0@;
    &&& r1.wf()
    &&& r1.queue.0@ == Seq::<GraphicsCommand>::empty()
    &&& geometry_frame(
        r0.geometry.pool@.map_values(|o: PooledGeometry| settled(o)),
        r0.geometry.next_handle,
        geometry_of(q),
        r0.geometry.assets.next_asset,
        r1.geometry.pool@,
    )
    &&& r1.geometry.next_handle == r0.geometry.next_handle + created_count(
        r0.geometry.pool@.len(),
        geometry_of(q).len(),
    )
    &&& cache_extends(r0.geometry.materials, r1.geometry.materials)
    &&& cache_adds_only_requested(r0.geometry.materials, r1.geometry.materials, geometry_of(q))
    &&& forall|id: u64| #[trigger]
        r1.geometry.assets.live_meshes@.contains(id) ==> r0.geometry.assets.next_asset <= id
    &&& r1.geometry.assets.mesh_allocations == r0.geometry.assets.mesh_allocations + ring_count(geometry_of(q))
    &&& r1.sprites.pool@ == sprite_frame(r0.sprites.pool@, r0.sprites.next_handle, sprites_of(q))
    &&& r1.sprites.next_handle == r0.sprites.next_handle + created_count(
        r0.sprites.pool@.len(),
        sprites_of(q).len(),
    )
    &&& r1.texts.pool@ == text_frame(r0.texts.pool@, r0.texts.next_handle, texts_of(q))
    &&& r1.texts.next_handle == r0.texts.next_handle + created_count(
        r0.texts.pool@.len(),
        texts_of(q).len(),
    )
    &&& r1.lights.pool@ == light_frame(
        r0.lights.pool@.map_values(|o: PooledLight| light_settled(o)),
        r0.lights.next_handle,
        lights_of(q),
    )
    &&& r1.lights.next_handle == r0.lights.next_handle + created_count(
        r0.lights.pool@.len(),
        lights_of(q).len(),
    )
}

/// Runs one frame: lands staged changes, drains the queue, reconciles every
/// request and reclaims the objects that were not requested.
pub fn render_graphics(renderer: &mut UnifiedRenderer)
    requires
        old(renderer).wf(),
        old(renderer).spec_has_headroom(),
    ensures
        frame_post(*old(renderer), *final(renderer)),
{
    apply_staged_geometry(&mut renderer.geometry);
    apply_staged_lights(&mut renderer.lights);
    let commands = renderer.queue.drain();
    let (geometry, sprites, texts, lights) = split_commands(&commands);
    proof {
        lemma_domain_counts(commands@);
    }
    render_geometry(&mut renderer.geometry, &geometry);
    render_sprites(&mut renderer.sprites, &sprites);
    render_text(&mut renderer.texts, &texts);
    render_lights(&mut renderer.lights, &lights);
}

} // verus!
