use vstd::prelude::*;

verus! {

/// A colour as the exact bit patterns of its four linear `f32` channels.
///
/// Two colours are the same only when every channel has the same bits:
/// there is no tolerance, so colours that differ in the last bit are distinct.
#[derive(Clone, Copy, Debug, PartialEq, Eq, Hash, Structural)]
pub struct HashableColor {
    pub r: u32,
    pub g: u32,
    pub b: u32,
    pub a: u32,
}

/// A 2D vector as the bit patterns of its `f32` components.
#[derive(Clone, Copy, Debug, PartialEq, Eq, Structural)]
pub struct Vec2Bits {
    pub x: u32,
    pub y: u32,
}

/// A 3D vector as the bit patterns of its `f32` components.
#[derive(Clone, Copy, Debug, PartialEq, Eq, Structural)]
pub struct Vec3Bits {
    pub x: u32,
    pub y: u32,
    pub z: u32,
}

/// An orientation quaternion as the bit patterns of its `f32` components.
#[derive(Clone, Copy, Debug, PartialEq, Eq, Structural)]
pub struct QuatBits {
    pub x: u32,
    pub y: u32,
    pub z: u32,
    pub w: u32,
}

impl HashableColor {
    /// Bitwise equality of all four channels.
    pub fn same_bits(&self, other: &HashableColor) -> (r: bool)
        ensures
            r == (*self == *other),
    {
        self.r == other.r && self.g == other.g && self.b == other.b && self.a == other.a
    }
}

impl Vec2Bits {
    /// Bitwise equality of both components.
    pub fn same_bits(&self, other: &Vec2Bits) -> (r: bool)
        ensures
            r == (*self == *other),
    {
        self.x == other.x && self.y == other.y
    }
}

impl Vec3Bits {
    /// Bitwise equality of all three components.
    pub fn same_bits(&self, other: &Vec3Bits) -> (r: bool)
        ensures
            r == (*self == *other),
    {
        self.x == other.x && self.y == other.y && self.z == other.z
    }
}

/// Equality of two optional asset references (texture, font or scene identities).
pub fn same_asset(a: Option<u64>, b: Option<u64>) -> (r: bool)
    ensures
        r == (a == b),
{
    match (a, b) {
        (Some(x), Some(y)) => x == y,
        (None, None) => true,
        _ => false,
    }
}

} // verus!
