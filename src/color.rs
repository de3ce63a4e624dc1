use vstd::prelude::*;

verus! {

/// An RGB color with three 8-bit channels.
#[derive(Clone, Copy, Debug, PartialEq, Eq, Structural)]
pub struct Color(pub u8, pub u8, pub u8);

/// The channel value that `v` clamps to in `[0, 255]`.
pub open spec fn clamp_channel(v: int) -> u8 {
    if v < 0 {
        0
    } else if v > 255 {
        255
    } else {
        v as u8
    }
}

/// The `0x00RRGGBB` word of a color.
pub open spec fn packed(c: Color) -> u32 {
    (c.0 * 65536 + c.1 * 256 + c.2) as u32
}

impl Color {
    pub fn red() -> (c: Color)
        ensures
            c == Color(255, 0, 0),
    {
        Color(255, 0, 0)
    }

    pub fn green() -> (c: Color)
        ensures
            c == Color(0, 255, 0),
    {
        Color(0, 255, 0)
    }

    pub fn blue() -> (c: Color)
        ensures
            c == Color(0, 0, 255),
    {
        Color(0, 0, 255)
    }

    pub fn yellow() -> (c: Color)
        ensures
            c == Color(255, 255, 0),
    {
        Color(255, 255, 0)
    }

    pub fn purple() -> (c: Color)
        ensures
            c == Color(255, 0, 255),
    {
        Color(255, 0, 255)
    }

    pub fn cyan() -> (c: Color)
        ensures
            c == Color(0, 255, 255),
    {
        Color(0, 255, 255)
    }

    pub fn black() -> (c: Color)
        ensures
            c == Color(0, 0, 0),
    {
        Color(0, 0, 0)
    }

    pub fn white() -> (c: Color)
        ensures
            c == Color(255, 255, 255),
    {
        Color(255, 255, 255)
    }

    /// What a ray that hits nothing sees: white.
    pub fn background() -> (c: Color)
        ensures
            c == Color(255, 255, 255),
    {
        Color(255, 255, 255)
    }

    /// Channel-wise saturating addition.
    pub fn add(self, rhs: Color) -> (r: Color)
        ensures
            r.0 == clamp_channel(self.0 + rhs.0),
            r.1 == clamp_channel(self.1 + rhs.1),
            r.2 == clamp_channel(self.2 + rhs.2),
    {
        Color(self.0.saturating_add(rhs.0), self.1.saturating_add(rhs.1), self.2.saturating_add(rhs.2))
    }

    /// The color whose channels are the given intensities clamped to `[0, 255]`.
    ///
    /// Scaling a color by a real factor `k` is `Color::clamped` of the
    /// channel products `c * k`, each truncated toward zero.
    pub fn clamped(r: i64, g: i64, b: i64) -> (c: Color)
        ensures
            c.0 == clamp_channel(r as int),
            c.1 == clamp_channel(g as int),
            c.2 == clamp_channel(b as int),
    {
        Color(clamp_to_channel(r), clamp_to_channel(g), clamp_to_channel(b))
    }

    /// The color as a `0x00RRGGBB` word.
    pub fn to_u32(self) -> (w: u32)
        ensures
            w == packed(self),
            w as int == self.0 * 65536 + self.1 * 256 + self.2,
    {
        (self.0 as u32) * 65536 + (self.1 as u32) * 256 + (self.2 as u32)
    }
}

fn clamp_to_channel(v: i64) -> (r: u8)
    ensures
        r == clamp_channel(v as int),
{
    if v < 0 {
        0
    } else if v > 255 {
        255
    } else {
        v as u8
    }
}

} // verus!
