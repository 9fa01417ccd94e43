use vstd::prelude::*;

use crate::pool::{created_count, kept_count, kept_len};
use crate::values::{HashableColor, Vec3Bits};

verus! {

/// A request for a light this frame.
///
/// A directional light is aimed along `direction`; turning that vector into
/// an orientation is left to the presentation side.
#[derive(Clone, Copy, Debug, PartialEq, Eq, Structural)]
pub enum LightCommand {
    Point { position: Vec3Bits, color: HashableColor, intensity: u32, radius: u32, shadows: bool, layer: usize },
    Directional { direction: Vec3Bits, color: HashableColor, illuminance: u32, shadows: bool, layer: usize },
}

/// The two mutually exclusive kinds of light.
#[derive(Clone, Copy, Debug, PartialEq, Eq, Structural)]
pub enum LightType {
    Point,
    Directional,
}

impl LightCommand {
    pub open spec fn spec_light_type(&self) -> LightType {
        match *self {
            LightCommand::Point { .. } => LightType::Point,
            LightCommand::Directional { .. } => LightType::Directional,
        }
    }

    /// The kind of light this command asks for.
    #[verifier::when_used_as_spec(spec_light_type)]
    pub fn light_type(&self) -> (r: LightType)
        ensures
            r == self.spec_light_type(),
    {
        match *self {
            LightCommand::Point { .. } => LightType::Point,
            LightCommand::Directional { .. } => LightType::Directional,
        }
    }
}

/// A pooled light object.
#[derive(Clone, Copy, Debug, PartialEq, Eq, Structural)]
pub struct PooledLight {
    /// Stable identity of the object.
    pub handle: u64,
    /// The kind of light attached now; none before the first one lands.
    pub light_type: Option<LightType>,
    /// A change of kind requested this frame; it lands at the next frame.
    pub staged: Option<LightType>,
    /// The settings last written.
    pub settings: LightCommand,
    pub visible: bool,
}

/// The light domain: its pooled objects.
pub struct LightRenderer {
    pub pool: Vec<PooledLight>,
    /// The handle the next created object gets.
    pub next_handle: u64,
}

/// `o` updated by `c`: in place when the kind matches, otherwise with the
/// new kind staged for the next frame.
pub open spec fn light_applied(o: PooledLight, c: LightCommand) -> PooledLight {
    PooledLight {
        handle: o.handle,
        light_type: o.light_type,
        staged: if o.light_type == Some(c.spec_light_type()) {
            None
        } else {
            Some(c.spec_light_type())
        },
        settings: c,
        visible: true,
    }
}

/// A new object for `c`; its kind lands at the next frame.
pub open spec fn light_created(handle: u64, c: LightCommand) -> PooledLight {
    PooledLight { handle, light_type: None, staged: Some(c.spec_light_type()), settings: c, visible: true }
}

/// `o` kept in reserve, hidden.
pub open spec fn light_hidden(o: PooledLight) -> PooledLight {
    PooledLight { visible: false, ..o }
}

/// `o` after its staged kind has landed.
pub open spec fn light_settled(o: PooledLight) -> PooledLight {
    match o.staged {
        Some(t) => PooledLight { light_type: Some(t), staged: None, ..o },
        None => o,
    }
}

/// The pool after a frame: the `k`-th command updates the `k`-th object or
/// creates one; leftovers are hidden up to the reserve and the rest destroyed.
pub open spec fn light_frame(pool: Seq<PooledLight>, next_handle: u64, commands: Seq<LightCommand>) -> Seq<PooledLight> {
    Seq::new(
        kept_count(pool.len(), commands.len()),
        |k: int|
            if k < commands.len() {
                if k < pool.len() {
                    light_applied(pool[k], commands[k])
                } else {
                    light_created((next_handle + (k - pool.len())) as u64, commands[k])
                }
            } else {
                light_hidden(pool[k])
            },
    )
}

/// Reconciles one light command against the candidate object at `candidate`,
/// or creates an object when there is none.
pub fn process_light(renderer: &mut LightRenderer, candidate: Option<usize>, command: LightCommand)
    requires
        candidate matches Some(i) ==> i < old(renderer).pool@.len(),
        candidate is None ==> old(renderer).next_handle < u64::MAX,
    ensures
        match candidate {
            Some(i) => final(renderer).pool@ == old(renderer).pool@.update(
                i as int,
                light_applied(old(renderer).pool@[i as int], command),
            ) && final(renderer).next_handle == old(renderer).next_handle,
            None => final(renderer).pool@ == old(renderer).pool@.push(
                light_created(old(renderer).next_handle, command),
            ) && final(renderer).next_handle == old(renderer).next_handle + 1,
        },
{
    let wanted = command.light_type();
    match candidate {
        Some(i) => {
            let o = renderer.pool[i];
            let staged = match o.light_type {
                Some(t) => if t == wanted {
                    None
                } else {
                    Some(wanted)
                },
                None => Some(wanted),
            };
            renderer.pool.set(
                i,
                PooledLight { handle: o.handle, light_type: o.light_type, staged, settings: command, visible: true },
            );
        },
        None => {
            let o = PooledLight {
                handle: renderer.next_handle,
                light_type: None,
                staged: Some(wanted),
                settings: command,
                visible: true,
            };
            renderer.pool.push(o);
            renderer.next_handle = renderer.next_handle + 1;
        },
    }
}

/// Reconciles one frame's light commands, in order, against the pool.
pub fn render_lights(renderer: &mut LightRenderer, commands: &Vec<LightCommand>)
    requires
        old(renderer).next_handle + commands@.len() <= u64::MAX,
    ensures
        final(renderer).pool@ == light_frame(old(renderer).pool@, old(renderer).next_handle, commands@),
        final(renderer).next_handle == old(renderer).next_handle + created_count(
            old(renderer).pool@.len(),
            commands@.len(),
        ),
{
    let ghost pool0 = renderer.pool@;
    let ghost next0 = renderer.next_handle;
    let old_len = renderer.pool.len();
    let n = commands.len();
    let mut k: usize = 0;
    while k < n
        invariant
            0 <= k <= n,
            n == commands@.len(),
            old_len == pool0.len(),
            renderer.pool@.len() == if k < old_len {
                old_len as int
            } else {
                k as int
            },
            forall|j: int|
                0 <= j < k ==> #[trigger] renderer.pool@[j] == light_frame(pool0, next0, commands@)[j],
            forall|j: int| k <= j < old_len ==> #[trigger] renderer.pool@[j] == pool0[j],
            renderer.next_handle == next0 + created_count(old_len as nat, k as nat),
            next0 + n <= u64::MAX,
        decreases n - k,
    {
        let ghost mid = renderer.pool@;
        let candidate = if k < old_len {
            Some(k)
        } else {
            None
        };
        process_light(renderer, candidate, commands[k]);
        proof {
            assert forall|j: int|
                0 <= j < k + 1 implies #[trigger] renderer.pool@[j] == light_frame(pool0, next0, commands@)[j] by {
                if j < k {
                    assert(renderer.pool@[j] == mid[j]);
                }
            }
            assert forall|j: int| k + 1 <= j < old_len implies #[trigger] renderer.pool@[j] == pool0[j] by {
                assert(renderer.pool@[j] == mid[j]);
            }
        }
        k = k + 1;
    }
    let keep = kept_len(old_len, n);
    let ghost before_truncate = renderer.pool@;
    renderer.pool.truncate(keep);
    assert forall|i: int| 0 <= i < keep implies #[trigger] renderer.pool@[i] == before_truncate[i] by {}
    let mut j: usize = n;
    while j < keep
        invariant
            n <= j <= keep,
            n == commands@.len(),
            old_len == pool0.len(),
            keep == kept_count(old_len as nat, n as nat),
            renderer.next_handle == next0 + created_count(old_len as nat, n as nat),
            renderer.pool@.len() == keep,
            forall|i: int| 0 <= i < j ==> #[trigger] renderer.pool@[i] == light_frame(pool0, next0, commands@)[i],
            forall|i: int| j <= i < keep ==> #[trigger] renderer.pool@[i] == pool0[i],
        decreases keep - j,
    {
        let mut o = renderer.pool[j];
        o.visible = false;
        let ghost mid = renderer.pool@;
        renderer.pool.set(j, o);
        proof {
            assert forall|i: int| 0 <= i < j + 1 implies #[trigger] renderer.pool@[i] == light_frame(
                pool0,
                next0,
                commands@,
            )[i] by {
                if i < j {
                    assert(renderer.pool@[i] == mid[i]);
                }
            }
            assert forall|i: int| j + 1 <= i < keep implies #[trigger] renderer.pool@[i] == pool0[i] by {
                assert(renderer.pool@[i] == mid[i]);
            }
        }
        j = j + 1;
    }
    assert(renderer.pool@ =~= light_frame(pool0, next0, commands@));
}

/// Lands every staged change of light kind: the frame boundary at which
/// kind changes requested during the previous frame take effect.
pub fn apply_staged_lights(renderer: &mut LightRenderer)
    ensures
        final(renderer).pool@ == old(renderer).pool@.map_values(|o: PooledLight| light_settled(o)),
        final(renderer).next_handle == old(renderer).next_handle,
{
    let ghost pool0 = renderer.pool@;
    let mut k: usize = 0;
    while k < renderer.pool.len()
        invariant
            0 <= k <= renderer.pool@.len(),
            renderer.pool@.len() == pool0.len(),
            forall|j: int| 0 <= j < k ==> #[trigger] renderer.pool@[j] == light_settled(pool0[j]),
            forall|j: int| k <= j < pool0.len() ==> #[trigger] renderer.pool@[j] == pool0[j],
            renderer.next_handle == old(renderer).next_handle,
        decreases renderer.pool@.len() - k,
    {
        let o = renderer.pool[k];
        if let Some(t) = o.staged {
            let ghost mid = renderer.pool@;
            renderer.pool.set(k, PooledLight { light_type: Some(t), staged: None, ..o });
            assert forall|j: int| 0 <= j < k implies #[trigger] renderer.pool@[j] == light_settled(pool0[j]) by {
                assert(renderer.pool@[j] == mid[j]);
            }
        }
        k = k + 1;
    }
    assert(renderer.pool@ =~= pool0.map_values(|o: PooledLight| light_settled(o)));
}

} // verus!
