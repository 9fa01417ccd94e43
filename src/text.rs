use vstd::prelude::*;

use crate::pool::{created_count, kept_count, kept_len};
use crate::sprite::bit;
use crate::values::{same_asset, HashableColor, Vec2Bits};

verus! {

/// A request to draw a label this frame. Without a font the default one is used.
#[derive(Clone, Debug, PartialEq, Eq)]
pub struct TextCommand {
    pub text: String,
    pub font: Option<u64>,
    pub position: Vec2Bits,
    pub size: u32,
    pub color: HashableColor,
    pub layer: usize,
}

/// A pooled text object.
#[derive(Clone, Debug, PartialEq, Eq)]
pub struct TextItem {
    /// Stable identity of the object.
    pub handle: u64,
    pub text: String,
    pub font: Option<u64>,
    pub position: Vec2Bits,
    pub size: u32,
    pub color: HashableColor,
    pub layer: usize,
    pub visible: bool,
    /// How many fields its last update changed.
    pub writes: u8,
}

/// The text domain: its pooled objects.
pub struct TextRenderer {
    pub pool: Vec<TextItem>,
    /// The handle the next created object gets.
    pub next_handle: u64,
}

/// How many fields of `o` differ from what `c` asks for; the content is
/// compared by value.
pub open spec fn text_writes(o: TextItem, c: TextCommand) -> u8 {
    (bit(o.text@ != c.text@) + bit(o.font != c.font) + bit(o.position != c.position) + bit(
        o.size != c.size,
    ) + bit(o.color != c.color) + bit(o.layer != c.layer) + bit(!o.visible)) as u8
}

/// `o` updated in place by `c`; content equal by value is left as it is.
pub open spec fn text_applied(o: TextItem, c: TextCommand) -> TextItem {
    TextItem {
        handle: o.handle,
        text: if o.text@ == c.text@ {
            o.text
        } else {
            c.text
        },
        font: c.font,
        position: c.position,
        size: c.size,
        color: c.color,
        layer: c.layer,
        visible: true,
        writes: text_writes(o, c),
    }
}

/// A new object for `c`.
pub open spec fn text_created(handle: u64, c: TextCommand) -> TextItem {
    TextItem {
        handle,
        text: c.text,
        font: c.font,
        position: c.position,
        size: c.size,
        color: c.color,
        layer: c.layer,
        visible: true,
        writes: 0,
    }
}

/// `o` kept in reserve, hidden.
pub open spec fn text_hidden(o: TextItem) -> TextItem {
    TextItem { visible: false, writes: bit(o.visible) as u8, ..o }
}

/// The pool after a frame: the `k`-th command updates the `k`-th object or
/// creates one; leftovers are hidden up to the reserve and the rest destroyed.
pub open spec fn text_frame(pool: Seq<TextItem>, next_handle: u64, commands: Seq<TextCommand>) -> Seq<TextItem> {
    Seq::new(
        kept_count(pool.len(), commands.len()),
        |k: int|
            if k < commands.len() {
                if k < pool.len() {
                    text_applied(pool[k], commands[k])
                } else {
                    text_created((next_handle + (k - pool.len())) as u64, commands[k])
                }
            } else {
                text_hidden(pool[k])
            },
    )
}

impl TextItem {
    /// A field-by-field copy.
    pub fn duplicate(&self) -> (r: TextItem)
        ensures
            r == *self,
    {
        TextItem {
            handle: self.handle,
            text: self.text.clone(),
            font: self.font,
            position: self.position,
            size: self.size,
            color: self.color,
            layer: self.layer,
            visible: self.visible,
            writes: self.writes,
        }
    }
}

/// Updates `o` from `c`, writing only the fields that differ.
pub fn update_text(o: &mut TextItem, c: &TextCommand)
    ensures
        *final(o) == text_applied(*old(o), *c),
{
    let mut writes: u8 = 0;
    if !(o.text == c.text) {
        o.text = c.text.clone();
        writes = writes + 1;
    }
    if !same_asset(o.font, c.font) {
        o.font = c.font;
        writes = writes + 1;
    }
    if !o.position.same_bits(&c.position) {
        o.position = c.position;
        writes = writes + 1;
    }
    if o.size != c.size {
        o.size = c.size;
        writes = writes + 1;
    }
    if !o.color.same_bits(&c.color) {
        o.color = c.color;
        writes = writes + 1;
    }
    if o.layer != c.layer {
        o.layer = c.layer;
        writes = writes + 1;
    }
    if !o.visible {
        o.visible = true;
        writes = writes + 1;
    }
    o.writes = writes;
}

/// Reconciles one text command against the candidate object at `candidate`,
/// or creates an object when there is none.
pub fn process_text(renderer: &mut TextRenderer, candidate: Option<usize>, command: &TextCommand)
    requires
        candidate matches Some(i) ==> i < old(renderer).pool@.len(),
        candidate is None ==> old(renderer).next_handle < u64::MAX,
    ensures
        match candidate {
            Some(i) => final(renderer).pool@ == old(renderer).pool@.update(
                i as int,
                text_applied(old(renderer).pool@[i as int], *command),
            ) && final(renderer).next_handle == old(renderer).next_handle,
            None => final(renderer).pool@ == old(renderer).pool@.push(
                text_created(old(renderer).next_handle, *command),
            ) && final(renderer).next_handle == old(renderer).next_handle + 1,
        },
{
    match candidate {
        Some(i) => {
            let mut o = renderer.pool[i].duplicate();
            update_text(&mut o, command);
            renderer.pool.set(i, o);
        },
        None => {
            let o = TextItem {
                handle: renderer.next_handle,
                text: command.text.clone(),
                font: command.font,
                position: command.position,
                size: command.size,
                color: command.color,
                layer: command.layer,
                visible: true,
                writes: 0,
            };
            renderer.pool.push(o);
            renderer.next_handle = renderer.next_handle + 1;
        },
    }
}

/// Reconciles one frame's text commands, in order, against the pool.
pub fn render_text(renderer: &mut TextRenderer, commands: &Vec<TextCommand>)
    requires
        old(renderer).next_handle + commands@.len() <= u64::MAX,
    ensures
        final(renderer).pool@ == text_frame(old(renderer).pool@, old(renderer).next_handle, commands@),
        final(renderer).next_handle == old(renderer).next_handle + created_count(
            old(renderer).pool@.len(),
            commands@.len(),
        ),
{
    let ghost pool0 = renderer.pool@;
    let ghost next0 = renderer.next_handle;
    let old_len = renderer.pool.len();
    let n = commands.len();
    let mut k: usize = 0;
    while k < n
        invariant
            0 <= k <= n,
            n == commands@.len(),
            old_len == pool0.len(),
            renderer.pool@.len() == if k < old_len {
                old_len as int
            } else {
                k as int
            },
            forall|j: int|
                0 <= j < k ==> #[trigger] renderer.pool@[j] == text_frame(pool0, next0, commands@)[j],
            forall|j: int| k <= j < old_len ==> #[trigger] renderer.pool@[j] == pool0[j],
            renderer.next_handle == next0 + created_count(old_len as nat, k as nat),
            next0 + n <= u64::MAX,
        decreases n - k,
    {
        let ghost mid = renderer.pool@;
        let candidate = if k < old_len {
            Some(k)
        } else {
            None
        };
        process_text(renderer, candidate, &commands[k]);
        proof {
            assert forall|j: int|
                0 <= j < k + 1 implies #[trigger] renderer.pool@[j] == text_frame(pool0, next0, commands@)[j] by {
                if j < k {
                    assert(renderer.pool@[j] == mid[j]);
                }
            }
            assert forall|j: int| k + 1 <= j < old_len implies #[trigger] renderer.pool@[j] == pool0[j] by {
                assert(renderer.pool@[j] == mid[j]);
            }
        }
        k = k + 1;
    }
    let keep = kept_len(old_len, n);
    let ghost before_truncate = renderer.pool@;
    renderer.pool.truncate(keep);
    assert forall|i: int| 0 <= i < keep implies #[trigger] renderer.pool@[i] == before_truncate[i] by {}
    let mut j: usize = n;
    while j < keep
        invariant
            n <= j <= keep,
            n == commands@.len(),
            old_len == pool0.len(),
            keep == kept_count(old_len as nat, n as nat),
            renderer.next_handle == next0 + created_count(old_len as nat, n as nat),
            renderer.pool@.len() == keep,
            forall|i: int| 0 <= i < j ==> #[trigger] renderer.pool@[i] == text_frame(pool0, next0, commands@)[i],
            forall|i: int| j <= i < keep ==> #[trigger] renderer.pool@[i] == pool0[i],
        decreases keep - j,
    {
        let mut o = renderer.pool[j].duplicate();
        o.writes = if o.visible {
            1
        } else {
            0
        };
        o.visible = false;
        let ghost mid = renderer.pool@;
        renderer.pool.set(j, o);
        proof {
            assert forall|i: int| 0 <= i < j + 1 implies #[trigger] renderer.pool@[i] == text_frame(
                pool0,
                next0,
                commands@,
            )[i] by {
                if i < j {
                    assert(renderer.pool@[i] == mid[i]);
                }
            }
            assert forall|i: int| j + 1 <= i < keep implies #[trigger] renderer.pool@[i] == pool0[i] by {
                assert(renderer.pool@[i] == mid[i]);
            }
        }
        j = j + 1;
    }
    assert(renderer.pool@ =~= text_frame(pool0, next0, commands@));
}

} // verus!
