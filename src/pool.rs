use vstd::prelude::*;

verus! {

/// How many hidden objects the sprite, text and light pools keep for reuse
/// beyond those drawn this frame.
pub const MAX_RESERVE: usize = 100;

/// How many objects a frame with `n` commands creates on a pool of `len` objects.
pub open spec fn created_count(len: nat, n: nat) -> nat {
    if n > len {
        (n - len) as nat
    } else {
        0
    }
}

/// How many objects a pool that keeps a reserve holds after a frame with `n`
/// commands: those drawn, then leftovers up to the reserve.
pub open spec fn kept_count(len: nat, n: nat) -> nat {
    if len <= n {
        n
    } else if len <= n + MAX_RESERVE {
        len
    } else {
        (n + MAX_RESERVE) as nat
    }
}

/// Computes `kept_count`.
pub fn kept_len(len: usize, n: usize) -> (r: usize)
    ensures
        r == kept_count(len as nat, n as nat),
{
    if len <= n {
        n
    } else if len - n <= MAX_RESERVE {
        len
    } else {
        n + MAX_RESERVE
    }
}

} // verus!
