use vstd::prelude::*;

verus! {

/// An 8-bit RGB color sample.
#[derive(Debug, Clone, Copy, PartialEq, Eq, Structural)]
pub struct Rgb {
    pub r: u8,
    pub g: u8,
    pub b: u8,
}

/// Rescales a channel value `v` of a field whose largest value is `max` to the range 0..=255.
pub open spec fn rescale(v: int, max: int) -> int {
    (v * 255) / max
}

/// The color held by a packed 5/6/5 pixel word: red in the top five bits, green in the
/// middle six, blue in the low five, each rescaled to eight bits.
pub open spec fn rgb565_color(p: u16) -> Rgb {
    Rgb {
        r: rescale(p as int / 2048, 31) as u8,
        g: rescale((p as int / 32) % 64, 63) as u8,
        b: rescale(p as int % 32, 31) as u8,
    }
}

/// Squared Euclidean distance of two colors in RGB space.
pub open spec fn rgb_dist(a: Rgb, b: Rgb) -> int {
    (a.r - b.r) * (a.r - b.r) + (a.g - b.g) * (a.g - b.g) + (a.b - b.b) * (a.b - b.b)
}

/// The square of the difference of two channel values.
fn channel_gap_sq(x: u8, y: u8) -> (out: u32)
    ensures
        out == (x - y) * (x - y),
        out <= 65025,
{
    let d: u32 = if x >= y { (x - y) as u32 } else { (y - x) as u32 };
    assert(d * d <= 65025) by (nonlinear_arith)
        requires d <= 255;
    assert(d * d == (x - y) * (x - y)) by (nonlinear_arith)
        requires d == x - y || d == y - x;
    d * d
}

impl Rgb {
    /// Unpacks a 5/6/5 pixel word.
    pub fn from_rgb565(p: u16) -> (c: Rgb)
        ensures
            c == rgb565_color(p),
    {
        let r5: u16 = (p >> 11) & 0x1F;
        let g6: u16 = (p >> 5) & 0x3F;
        let b5: u16 = p & 0x1F;
        assert(r5 == p / 2048 && r5 <= 31) by (bit_vector)
            requires r5 == (p >> 11) & 0x1F;
        assert(g6 == (p / 32) % 64 && g6 <= 63) by (bit_vector)
            requires g6 == (p >> 5) & 0x3F;
        assert(b5 == p % 32 && b5 <= 31) by (bit_vector)
            requires b5 == p & 0x1F;
        Rgb {
            r: ((r5 * 255) / 31) as u8,
            g: ((g6 * 255) / 63) as u8,
            b: ((b5 * 255) / 31) as u8,
        }
    }

    /// Squared distance to `other` in RGB space.
    pub fn dist(&self, other: &Rgb) -> (d: u32)
        ensures
            d == rgb_dist(*self, *other),
            d <= 195075,
    {
        let rd: u32 = channel_gap_sq(self.r, other.r);
        let gd: u32 = channel_gap_sq(self.g, other.g);
        let bd: u32 = channel_gap_sq(self.b, other.b);
        rd + gd + bd
    }
}

} // verus!
