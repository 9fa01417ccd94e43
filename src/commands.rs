use vstd::prelude::*;

use crate::geometry::GeometryCommand;
use crate::lights::LightCommand;
use crate::sprite::SpriteCommand;
use crate::text::TextCommand;

verus! {

/// One draw request of any domain.
#[derive(Clone, Debug, PartialEq, Eq)]
pub enum GraphicsCommand {
    Geometry(GeometryCommand),
    Sprite(SpriteCommand),
    Text(TextCommand),
    Light(LightCommand),
}

/// The ordered buffer of this frame's draw requests.
pub struct GraphicsQueue(pub Vec<GraphicsCommand>);

impl TextCommand {
    /// A field-by-field copy.
    pub fn duplicate(&self) -> (r: TextCommand)
        ensures
            r == *self,
    {
        TextCommand {
            text: self.text.clone(),
            font: self.font,
            position: self.position,
            size: self.size,
            color: self.color,
            layer: self.layer,
        }
    }
}

impl GraphicsQueue {
    /// The empty queue.
    pub fn new() -> (r: GraphicsQueue)
        ensures
            r.0@ == Seq::<GraphicsCommand>::empty(),
    {
        GraphicsQueue(Vec::new())
    }

    /// Appends a request; nothing is reordered or merged.
    pub fn enqueue(&mut self, command: GraphicsCommand)
        ensures
            final(self).0@ == old(self).0@.push(command),
    {
        self.0.push(command);
    }

    /// Hands out every queued request in order and leaves the queue empty.
    pub fn drain(&mut self) -> (r: Vec<GraphicsCommand>)
        ensures
            r@ == old(self).0@,
            final(self).0@ == Seq::<GraphicsCommand>::empty(),
    {
        let mut out: Vec<GraphicsCommand> = Vec::new();
        std::mem::swap(&mut self.0, &mut out);
        out
    }
}

/// The geometry requests among `q`, in order.
pub open spec fn geometry_of(q: Seq<GraphicsCommand>) -> Seq<GeometryCommand>
    decreases q.len(),
{
    if q.len() == 0 {
        Seq::empty()
    } else {
        match q.last() {
            GraphicsCommand::Geometry(c) => geometry_of(q.drop_last()).push(c),
            _ => geometry_of(q.drop_last()),
        }
    }
}

/// The sprite requests among `q`, in order.
pub open spec fn sprites_of(q: Seq<GraphicsCommand>) -> Seq<SpriteCommand>
    decreases q.len(),
{
    if q.len() == 0 {
        Seq::empty()
    } else {
        match q.last() {
            GraphicsCommand::Sprite(c) => sprites_of(q.drop_last()).push(c),
            _ => sprites_of(q.drop_last()),
        }
    }
}

/// The text requests among `q`, in order.
pub open spec fn texts_of(q: Seq<GraphicsCommand>) -> Seq<TextCommand>
    decreases q.len(),
{
    if q.len() == 0 {
        Seq::empty()
    } else {
        match q.last() {
            GraphicsCommand::Text(c) => texts_of(q.drop_last()).push(c),
            _ => texts_of(q.drop_last()),
        }
    }
}

/// The light requests among `q`, in order.
pub open spec fn lights_of(q: Seq<GraphicsCommand>) -> Seq<LightCommand>
    decreases q.len(),
{
    if q.len() == 0 {
        Seq::empty()
    } else {
        match q.last() {
            GraphicsCommand::Light(c) => lights_of(q.drop_last()).push(c),
            _ => lights_of(q.drop_last()),
        }
    }
}

/// No domain has more requests than the queue.
pub proof fn lemma_domain_counts(q: Seq<GraphicsCommand>)
    ensures
        geometry_of(q).len() + sprites_of(q).len() + texts_of(q).len() + lights_of(q).len() == q.len(),
    decreases q.len(),
{
    if q.len() > 0 {
        lemma_domain_counts(q.drop_last());
    }
}

/// Sorts the requests by domain, keeping their order within each domain.
pub fn split_commands(commands: &Vec<GraphicsCommand>) -> (r: (
    Vec<GeometryCommand>,
    Vec<SpriteCommand>,
    Vec<TextCommand>,
    Vec<LightCommand>,
))
    ensures
        r.0@ == geometry_of(commands@),
        r.1@ == sprites_of(commands@),
        r.2@ == texts_of(commands@),
        r.3@ == lights_of(commands@),
{
    let mut geometry: Vec<GeometryCommand> = Vec::new();
    let mut sprites: Vec<SpriteCommand> = Vec::new();
    let mut texts: Vec<TextCommand> = Vec::new();
    let mut lights: Vec<LightCommand> = Vec::new();
    let mut i: usize = 0;
    while i < commands.len()
        invariant
            0 <= i <= commands@.len(),
            geometry@ == geometry_of(commands@.take(i as int)),
            sprites@ == sprites_of(commands@.take(i as int)),
            texts@ == texts_of(commands@.take(i as int)),
            lights@ == lights_of(commands@.take(i as int)),
        decreases commands@.len() - i,
    {
        proof {
            assert(commands@.take(i + 1).drop_last() == commands@.take(i as int));
            assert(commands@.take(i + 1).last() == commands@[i as int]);
        }
        match &commands[i] {
            GraphicsCommand::Geometry(c) => geometry.push(*c),
            GraphicsCommand::Sprite(c) => sprites.push(*c),
            GraphicsCommand::Text(c) => texts.push(c.duplicate()),
            GraphicsCommand::Light(c) => lights.push(*c),
        }
        i = i + 1;
    }
    assert(commands@.take(commands@.len() as int) == commands@);
    (geometry, sprites, texts, lights)
}

} // verus!
