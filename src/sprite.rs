use vstd::prelude::*;

use crate::pool::{created_count, kept_count, kept_len};
use crate::values::{HashableColor, Vec2Bits};

verus! {

/// A request to draw an image this frame.
#[derive(Clone, Copy, Debug, PartialEq, Eq, Structural)]
pub struct SpriteCommand {
    pub image: u64,
    pub position: Vec2Bits,
    pub scale: Vec2Bits,
    pub color: HashableColor,
    pub layer: usize,
}

/// A pooled sprite object.
#[derive(Clone, Copy, Debug, PartialEq, Eq, Structural)]
pub struct SpriteItem {
    /// Stable identity of the object.
    pub handle: u64,
    pub image: u64,
    pub position: Vec2Bits,
    pub scale: Vec2Bits,
    pub color: HashableColor,
    pub layer: usize,
    pub visible: bool,
    /// How many fields its last update changed.
    pub writes: u8,
}

/// The sprite domain: its pooled objects.
pub struct SpriteRenderer {
    pub pool: Vec<SpriteItem>,
    /// The handle the next created object gets.
    pub next_handle: u64,
}

pub open spec fn bit(b: bool) -> nat {
    if b {
        1
    } else {
        0
    }
}

/// How many fields of `o` differ from what `c` asks for.
pub open spec fn sprite_writes(o: SpriteItem, c: SpriteCommand) -> u8 {
    (bit(o.image != c.image) + bit(o.position != c.position) + bit(o.scale != c.scale) + bit(
        o.color != c.color,
    ) + bit(o.layer != c.layer) + bit(!o.visible)) as u8
}

/// `o` updated in place by `c`.
pub open spec fn sprite_applied(o: SpriteItem, c: SpriteCommand) -> SpriteItem {
    SpriteItem {
        handle: o.handle,
        image: c.image,
        position: c.position,
        scale: c.scale,
        color: c.color,
        layer: c.layer,
        visible: true,
        writes: sprite_writes(o, c),
    }
}

/// A new object for `c`.
pub open spec fn sprite_created(handle: u64, c: SpriteCommand) -> SpriteItem {
    SpriteItem {
        handle,
        image: c.image,
        position: c.position,
        scale: c.scale,
        color: c.color,
        layer: c.layer,
        visible: true,
        writes: 0,
    }
}

/// `o` kept in reserve, hidden.
pub open spec fn sprite_hidden(o: SpriteItem) -> SpriteItem {
    SpriteItem { visible: false, writes: bit(o.visible) as u8, ..o }
}

/// The pool after a frame: the `k`-th command updates the `k`-th object or
/// creates one; leftovers are hidden up to the reserve and the rest destroyed.
pub open spec fn sprite_frame(pool: Seq<SpriteItem>, next_handle: u64, commands: Seq<SpriteCommand>) -> Seq<SpriteItem> {
    Seq::new(
        kept_count(pool.len(), commands.len()),
        |k: int|
            if k < commands.len() {
                if k < pool.len() {
                    sprite_applied(pool[k], commands[k])
                } else {
                    sprite_created((next_handle + (k - pool.len())) as u64, commands[k])
                }
            } else {
                sprite_hidden(pool[k])
            },
    )
}

/// Updates `o` from `c`, writing only the fields that differ.
pub fn update_sprite(o: &mut SpriteItem, c: &SpriteCommand)
    ensures
        *final(o) == sprite_applied(*old(o), *c),
{
    let mut writes: u8 = 0;
    if o.image != c.image {
        o.image = c.image;
        writes = writes + 1;
    }
    if !o.position.same_bits(&c.position) {
        o.position = c.position;
        writes = writes + 1;
    }
    if !o.scale.same_bits(&c.scale) {
        o.scale = c.scale;
        writes = writes + 1;
    }
    if !o.color.same_bits(&c.color) {
        o.color = c.color;
        writes = writes + 1;
    }
    if o.layer != c.layer {
        o.layer = c.layer;
        writes = writes + 1;
    }
    if !o.visible {
        o.visible = true;
        writes = writes + 1;
    }
    o.writes = writes;
}

/// Reconciles one sprite command against the candidate object at
/// `candidate`, or creates an object when there is none.
pub fn process_sprite(renderer: &mut SpriteRenderer, candidate: Option<usize>, command: &SpriteCommand)
    requires
        candidate matches Some(i) ==> i < old(renderer).pool@.len(),
        candidate is None ==> old(renderer).next_handle < u64::MAX,
    ensures
        match candidate {
            Some(i) => final(renderer).pool@ == old(renderer).pool@.update(
                i as int,
                sprite_applied(old(renderer).pool@[i as int], *command),
            ) && final(renderer).next_handle == old(renderer).next_handle,
            None => final(renderer).pool@ == old(renderer).pool@.push(
                sprite_created(old(renderer).next_handle, *command),
            ) && final(renderer).next_handle == old(renderer).next_handle + 1,
        },
{
    match candidate {
        Some(i) => {
            let mut o = renderer.pool[i];
            update_sprite(&mut o, command);
            renderer.pool.set(i, o);
        },
        None => {
            let o = SpriteItem {
                handle: renderer.next_handle,
                image: command.image,
                position: command.position,
                scale: command.scale,
                color: command.color,
                layer: command.layer,
                visible: true,
                writes: 0,
            };
            renderer.pool.push(o);
            renderer.next_handle = renderer.next_handle + 1;
        },
    }
}

/// Reconciles one frame's sprite commands, in order, against the pool.
pub fn render_sprites(renderer: &mut SpriteRenderer, commands: &Vec<SpriteCommand>)
    requires
        old(renderer).next_handle + commands@.len() <= u64::MAX,
    ensures
        final(renderer).pool@ == sprite_frame(old(renderer).pool@, old(renderer).next_handle, commands@),
        final(renderer).next_handle == old(renderer).next_handle + created_count(
            old(renderer).pool@.len(),
            commands@.len(),
        ),
{
    let ghost pool0 = renderer.pool@;
    let ghost next0 = renderer.next_handle;
    let old_len = renderer.pool.len();
    let n = commands.len();
    let mut k: usize = 0;
    while k < n
        invariant
            0 <= k <= n,
            n == commands@.len(),
            old_len == pool0.len(),
            renderer.pool@.len() == if k < old_len {
                old_len as int
            } else {
                k as int
            },
            forall|j: int|
                0 <= j < k ==> #[trigger] renderer.pool@[j] == sprite_frame(pool0, next0, commands@)[j],
            forall|j: int| k <= j < old_len ==> #[trigger] renderer.pool@[j] == pool0[j],
            renderer.next_handle == next0 + created_count(old_len as nat, k as nat),
            next0 + n <= u64::MAX,
        decreases n - k,
    {
        let ghost mid = renderer.pool@;
        let candidate = if k < old_len {
            Some(k)
        } else {
            None
        };
        process_sprite(renderer, candidate, &commands[k]);
        proof {
            assert forall|j: int|
                0 <= j < k + 1 implies #[trigger] renderer.pool@[j] == sprite_frame(pool0, next0, commands@)[j] by {
                if j < k {
                    assert(renderer.pool@[j] == mid[j]);
                }
            }
            assert forall|j: int| k + 1 <= j < old_len implies #[trigger] renderer.pool@[j] == pool0[j] by {
                assert(renderer.pool@[j] == mid[j]);
            }
        }
        k = k + 1;
    }
    let keep = kept_len(old_len, n);
    let ghost before_truncate = renderer.pool@;
    renderer.pool.truncate(keep);
    assert forall|i: int| 0 <= i < keep implies #[trigger] renderer.pool@[i] == before_truncate[i] by {}
    let mut j: usize = n;
    while j < keep
        invariant
            n <= j <= keep,
            n == commands@.len(),
            old_len == pool0.len(),
            keep == kept_count(old_len as nat, n as nat),
            renderer.next_handle == next0 + created_count(old_len as nat, n as nat),
            renderer.pool@.len() == keep,
            forall|i: int| 0 <= i < j ==> #[trigger] renderer.pool@[i] == sprite_frame(pool0, next0, commands@)[i],
            forall|i: int| j <= i < keep ==> #[trigger] renderer.pool@[i] == pool0[i],
        decreases keep - j,
    {
        let mut o = renderer.pool[j];
        o.writes = if o.visible {
            1
        } else {
            0
        };
        o.visible = false;
        let ghost mid = renderer.pool@;
        renderer.pool.set(j, o);
        proof {
            assert forall|i: int| 0 <= i < j + 1 implies #[trigger] renderer.pool@[i] == sprite_frame(
                pool0,
                next0,
                commands@,
            )[i] by {
                if i < j {
                    assert(renderer.pool@[i] == mid[i]);
                }
            }
            assert forall|i: int| j + 1 <= i < keep implies #[trigger] renderer.pool@[i] == pool0[i] by {
                assert(renderer.pool@[i] == mid[i]);
            }
        }
        j = j + 1;
    }
    assert(renderer.pool@ =~= sprite_frame(pool0, next0, commands@));
}

} // verus!
