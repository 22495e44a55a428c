//! Colours and the conversion between RGB and limited-range YUV.

use vstd::prelude::*;

use crate::arith::floor_256;

verus! {

#[derive(Clone, Copy, Debug, PartialEq, Eq, Hash, Structural)]
pub struct Rgb {
    pub r: u8,
    pub g: u8,
    pub b: u8,
}

#[derive(Clone, Copy, Debug, PartialEq, Eq, Hash, Structural)]
pub struct Yuv {
    pub y: u8,
    pub u: u8,
    pub v: u8,
}

#[derive(Clone, Copy, Debug, PartialEq, Eq, Hash, Structural)]
pub enum ColorMatrix {
    Bt601,
    Bt709,
}

/// What each component of a YUV colour takes of red, green and blue, in 256ths.
struct ForwardCoefficients {
    y: [i32; 3],
    u: [i32; 3],
    v: [i32; 3],
}

/// What red, green and blue take of the colour differences, in 256ths.
#[derive(Clone, Copy, Debug, PartialEq, Eq, Structural)]
pub struct InverseCoefficients {
    pub red_v: i32,
    pub green_u: i32,
    pub green_v: i32,
    pub blue_u: i32,
}

/// The nearest byte to a number.
pub open spec fn clamped(value: int) -> u8 {
    if value < 0 {
        0
    } else if value > 255 {
        255
    } else {
        value as u8
    }
}

/// A weighted sum of red, green and blue in 256ths, rounded to the nearest
/// whole number and shifted by an offset.
pub open spec fn weighted(weights: (int, int, int), rgb: Rgb, offset: int) -> u8 {
    clamped((weights.0 * rgb.r + weights.1 * rgb.g + weights.2 * rgb.b + 128) / 256 + offset)
}

impl Rgb {
    pub fn new(r: u8, g: u8, b: u8) -> (rgb: Self)
        ensures
            rgb == (Rgb { r, g, b }),
    {
        Rgb { r, g, b }
    }

    /// The green of a studio backdrop.
    pub fn green_screen() -> (rgb: Self)
        ensures
            rgb == (Rgb { r: 0, g: 177, b: 64 }),
    {
        Rgb { r: 0, g: 177, b: 64 }
    }

    /// The blue of a studio backdrop.
    pub fn blue_screen() -> (rgb: Self)
        ensures
            rgb == (Rgb { r: 0, g: 71, b: 187 }),
    {
        Rgb { r: 0, g: 71, b: 187 }
    }
}

/// Black in limited range.
pub open spec fn yuv_black() -> Yuv {
    Yuv { y: 16, u: 128, v: 128 }
}

impl Yuv {
    /// Black in limited range.
    pub fn black() -> (yuv: Self)
        ensures
            yuv == yuv_black(),
    {
        Yuv { y: 16, u: 128, v: 128 }
    }
}

impl ColorMatrix {
    /// The weights of red, green and blue in luma.
    pub open spec fn y_weights(self) -> (int, int, int) {
        match self {
            ColorMatrix::Bt601 => (66, 129, 25),
            ColorMatrix::Bt709 => (47, 157, 16),
        }
    }

    /// The weights of red, green and blue in the blue difference.
    pub open spec fn u_weights(self) -> (int, int, int) {
        match self {
            ColorMatrix::Bt601 => (-38, -74, 112),
            ColorMatrix::Bt709 => (-26, -87, 112),
        }
    }

    /// The weights of red, green and blue in the red difference.
    pub open spec fn v_weights(self) -> (int, int, int) {
        match self {
            ColorMatrix::Bt601 => (112, -94, -18),
            ColorMatrix::Bt709 => (112, -102, -10),
        }
    }

    pub open spec fn inverse_coefficients(self) -> InverseCoefficients {
        match self {
            ColorMatrix::Bt601 => InverseCoefficients {
                red_v: 409,
                green_u: (-100) as i32,
                green_v: (-208) as i32,
                blue_u: 516,
            },
            ColorMatrix::Bt709 => InverseCoefficients {
                red_v: 459,
                green_u: (-55) as i32,
                green_v: (-136) as i32,
                blue_u: 541,
            },
        }
    }

    /// The YUV colour of an RGB colour.
    pub open spec fn yuv_of(self, rgb: Rgb) -> Yuv {
        Yuv {
            y: weighted(self.y_weights(), rgb, 16),
            u: weighted(self.u_weights(), rgb, 128),
            v: weighted(self.v_weights(), rgb, 128),
        }
    }

    /// The RGB colour of a YUV colour.
    pub open spec fn rgb_of(self, yuv: Yuv) -> Rgb {
        let k = self.inverse_coefficients();
        let c = 298 * (yuv.y - 16);
        let d = yuv.u - 128;
        let e = yuv.v - 128;
        Rgb {
            r: clamped((c + k.red_v * e + 128) / 256),
            g: clamped((c + k.green_u * d + k.green_v * e + 128) / 256),
            b: clamped((c + k.blue_u * d + 128) / 256),
        }
    }

    /// The matrix that cameras use for frames of a height.
    pub fn for_height(height: u32) -> (matrix: Self)
        ensures
            matrix == if height >= 720 {
                ColorMatrix::Bt709
            } else {
                ColorMatrix::Bt601
            },
    {
        if height >= 720 {
            ColorMatrix::Bt709
        } else {
            ColorMatrix::Bt601
        }
    }

    fn forward(self) -> (c: ForwardCoefficients)
        ensures
            (c.y[0] as int, c.y[1] as int, c.y[2] as int) == self.y_weights(),
            (c.u[0] as int, c.u[1] as int, c.u[2] as int) == self.u_weights(),
            (c.v[0] as int, c.v[1] as int, c.v[2] as int) == self.v_weights(),
    {
        match self {
            ColorMatrix::Bt601 => ForwardCoefficients {
                y: [66, 129, 25],
                u: [-38, -74, 112],
                v: [112, -94, -18],
            },
            ColorMatrix::Bt709 => ForwardCoefficients {
                y: [47, 157, 16],
                u: [-26, -87, 112],
                v: [112, -102, -10],
            },
        }
    }

    pub fn inverse(self) -> (k: InverseCoefficients)
        ensures
            k == self.inverse_coefficients(),
    {
        match self {
            ColorMatrix::Bt601 => InverseCoefficients {
                red_v: 409,
                green_u: -100,
                green_v: -208,
                blue_u: 516,
            },
            ColorMatrix::Bt709 => InverseCoefficients {
                red_v: 459,
                green_u: -55,
                green_v: -136,
                blue_u: 541,
            },
        }
    }

    pub fn to_yuv(self, rgb: Rgb) -> (yuv: Yuv)
        ensures
            yuv == self.yuv_of(rgb),
    {
        let c = self.forward();
        Yuv {
            y: apply_weights(c.y, rgb, 16),
            u: apply_weights(c.u, rgb, 128),
            v: apply_weights(c.v, rgb, 128),
        }
    }

    pub fn to_rgb(self, yuv: Yuv) -> (rgb: Rgb)
        ensures
            rgb == self.rgb_of(yuv),
    {
        let k = self.inverse();
        let c: i32 = 298 * (yuv.y as i32 - 16);
        let d: i32 = yuv.u as i32 - 128;
        let e: i32 = yuv.v as i32 - 128;
        proof {
            lemma_inverse_bounds(k, d as int, e as int);
        }
        Rgb {
            r: clamp_u8(floor_256(c + k.red_v * e + 128)),
            g: clamp_u8(floor_256(c + k.green_u * d + k.green_v * e + 128)),
            b: clamp_u8(floor_256(c + k.blue_u * d + 128)),
        }
    }
}

/// What the colour differences add to a channel is small.
pub proof fn lemma_inverse_bounds(k: InverseCoefficients, d: int, e: int)
    requires
        -600 <= k.red_v <= 600,
        -600 <= k.green_u <= 600,
        -600 <= k.green_v <= 600,
        -600 <= k.blue_u <= 600,
        -128 <= d <= 127,
        -128 <= e <= 127,
    ensures
        -76_800 <= k.red_v * e <= 76_800,
        -76_800 <= k.green_u * d <= 76_800,
        -76_800 <= k.green_v * e <= 76_800,
        -76_800 <= k.blue_u * d <= 76_800,
{
    lemma_small_product(k.red_v as int, e);
    lemma_small_product(k.green_u as int, d);
    lemma_small_product(k.green_v as int, e);
    lemma_small_product(k.blue_u as int, d);
}

proof fn lemma_small_product(a: int, b: int)
    by (nonlinear_arith)
    requires
        -600 <= a <= 600,
        -128 <= b <= 127,
    ensures
        -76_800 <= a * b <= 76_800,
{
}

fn apply_weights(k: [i32; 3], rgb: Rgb, offset: i32) -> (value: u8)
    requires
        forall|i: int| 0 <= i < 3 ==> -256 <= #[trigger] k[i] <= 256,
        0 <= offset <= 255,
    ensures
        value == weighted((k[0] as int, k[1] as int, k[2] as int), rgb, offset as int),
{
    let (k0, k1, k2): (i32, i32, i32) = (k[0], k[1], k[2]);
    let (r, g, b): (i32, i32, i32) = (rgb.r as i32, rgb.g as i32, rgb.b as i32);
    proof {
        assert(-65536 <= k0 * r <= 65536) by (nonlinear_arith)
            requires
                -256 <= k0 <= 256,
                0 <= r <= 255,
        ;
        assert(-65536 <= k1 * g <= 65536) by (nonlinear_arith)
            requires
                -256 <= k1 <= 256,
                0 <= g <= 255,
        ;
        assert(-65536 <= k2 * b <= 65536) by (nonlinear_arith)
            requires
                -256 <= k2 <= 256,
                0 <= b <= 255,
        ;
    }
    clamp_u8(floor_256(k0 * r + k1 * g + k2 * b + 128) + offset)
}

/// The nearest byte to a number.
#[inline]
pub fn clamp_u8(value: i32) -> (byte: u8)
    ensures
        byte == clamped(value as int),
{
    if value < 0 {
        0
    } else if value > 255 {
        255
    } else {
        value as u8
    }
}

/// Converting a colour to YUV and back moves red and green by at most two and
/// blue by at most three, or four with BT.709.
pub proof fn law_round_trip_stays_within_rounding_error(matrix: ColorMatrix, rgb: Rgb)
    ensures
        ({
            let back = matrix.rgb_of(matrix.yuv_of(rgb));
            &&& -2 <= back.r - rgb.r <= 2
            &&& -2 <= back.g - rgb.g <= 2
            &&& -4 <= back.b - rgb.b <= 4
            &&& matrix == ColorMatrix::Bt601 ==> -3 <= back.b - rgb.b <= 3
        }),
{
    let (r, g, b) = (rgb.r as int, rgb.g as int, rgb.b as int);
    let yuv = matrix.yuv_of(rgb);
    if matrix == ColorMatrix::Bt601 {
        let y = (66 * r + 129 * g + 25 * b + 128) / 256;
        let u = (-38 * r + -74 * g + 112 * b + 128) / 256;
        let v = (112 * r + -94 * g + -18 * b + 128) / 256;
        assert(yuv.y == y + 16 && yuv.u == u + 128 && yuv.v == v + 128);
        lemma_round_trip_601(r, g, b, y, u, v);
    } else {
        let y = (47 * r + 157 * g + 16 * b + 128) / 256;
        let u = (-26 * r + -87 * g + 112 * b + 128) / 256;
        let v = (112 * r + -102 * g + -10 * b + 128) / 256;
        assert(yuv.y == y + 16 && yuv.u == u + 128 && yuv.v == v + 128);
        lemma_round_trip_709(r, g, b, y, u, v);
    }
}

proof fn lemma_round_trip_601(r: int, g: int, b: int, y: int, u: int, v: int)
    requires
        0 <= r <= 255,
        0 <= g <= 255,
        0 <= b <= 255,
        256 * y <= 66 * r + 129 * g + 25 * b + 128 < 256 * y + 256,
        256 * u <= -38 * r + -74 * g + 112 * b + 128 < 256 * u + 256,
        256 * v <= 112 * r + -94 * g + -18 * b + 128 < 256 * v + 256,
    ensures
        -2 <= clamped((298 * y + 409 * v + 128) / 256) - r <= 2,
        -2 <= clamped((298 * y + -100 * u + -208 * v + 128) / 256) - g <= 2,
        -3 <= clamped((298 * y + 516 * u + 128) / 256) - b <= 3,
{
    lemma_channel(298 * y + 409 * v, r, 2);
    lemma_channel(298 * y + -100 * u + -208 * v, g, 2);
    lemma_channel(298 * y + 516 * u, b, 3);
}

proof fn lemma_round_trip_709(r: int, g: int, b: int, y: int, u: int, v: int)
    requires
        0 <= r <= 255,
        0 <= g <= 255,
        0 <= b <= 255,
        256 * y <= 47 * r + 157 * g + 16 * b + 128 < 256 * y + 256,
        256 * u <= -26 * r + -87 * g + 112 * b + 128 < 256 * u + 256,
        256 * v <= 112 * r + -102 * g + -10 * b + 128 < 256 * v + 256,
    ensures
        -2 <= clamped((298 * y + 459 * v + 128) / 256) - r <= 2,
        -2 <= clamped((298 * y + -55 * u + -136 * v + 128) / 256) - g <= 2,
        -4 <= clamped((298 * y + 541 * u + 128) / 256) - b <= 4,
{
    lemma_channel(298 * y + 459 * v, r, 2);
    lemma_channel(298 * y + -55 * u + -136 * v, g, 2);
    lemma_channel(298 * y + 541 * u, b, 4);
}

proof fn lemma_channel(scaled: int, channel: int, bound: int)
    requires
        0 <= channel <= 255,
        256 * (channel - bound) - 128 <= scaled < 256 * (channel + bound + 1) - 128,
    ensures
        -bound <= clamped((scaled + 128) / 256) - channel <= bound,
{
}

/// Luma stays in the limited range: black is 16 and white is 235.
pub proof fn law_luma_is_limited_range(matrix: ColorMatrix, rgb: Rgb)
    ensures
        16 <= matrix.yuv_of(rgb).y <= 235,
        matrix.yuv_of(Rgb { r: 0, g: 0, b: 0 }) == yuv_black(),
        matrix.yuv_of(Rgb { r: 255, g: 255, b: 255 }).y == 235,
{
}

/// Luma grows with each of red, green and blue: a colour with no less of any has
/// no less luma.
pub proof fn law_luma_grows_with_red_green_and_blue(matrix: ColorMatrix, rgb: Rgb, more: Rgb)
    requires
        rgb.r <= more.r,
        rgb.g <= more.g,
        rgb.b <= more.b,
    ensures
        matrix.yuv_of(rgb).y <= matrix.yuv_of(more).y,
{
}

} // verus!
