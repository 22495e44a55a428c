//! The conversions of colours, held against the definitions of the two matrices.

use vstd::prelude::*;

use crate::color::{ColorMatrix, Rgb, Yuv};

verus! {

/// The shares of red, green and blue in the brightness of a colour, in ten thousandths.
pub open spec fn shares(matrix: ColorMatrix) -> (int, int, int) {
    match matrix {
        ColorMatrix::Bt601 => (2990, 5870, 1140),
        ColorMatrix::Bt709 => (2126, 7152, 722),
    }
}

/// A byte is the one that a number, given as a fraction, comes to between black and
/// full, to within one.
pub open spec fn comes_to(byte: u8, num: int, den: int) -> bool {
    &&& 0 <= num <= 255 * den ==> -den < den * byte - num < den
    &&& num < 0 ==> byte == 0
    &&& 255 * den < num ==> byte == 255
}

/// Luma is the brightness of a colour, from 16 for black to 235 for white. The two
/// differences are how much blue and red exceed it, 112 at most to either side of
/// 128; the first is that of blue.
pub proof fn law_colours_are_split_into_brightness_and_differences(matrix: ColorMatrix, rgb: Rgb)
    ensures
        ({
            let (red, green, blue) = shares(matrix);
            let brightness = red * rgb.r + green * rgb.g + blue * rgb.b;
            let yuv = matrix.yuv_of(rgb);
            let unit = 255int * 10000;
            let blue_unit = 255 * (10000 - blue);
            let red_unit = 255 * (10000 - red);
            &&& -unit < (yuv.y - 16) * unit - 219 * brightness < unit
            &&& -3 * blue_unit < 2 * ((yuv.u - 128) * blue_unit - 112 * (10000 * rgb.b - brightness))
                < 3 * blue_unit
            &&& -3 * red_unit < 2 * ((yuv.v - 128) * red_unit - 112 * (10000 * rgb.r - brightness))
                < 3 * red_unit
        }),
{
    let (r, g, b) = (rgb.r as int, rgb.g as int, rgb.b as int);
    let yuv = matrix.yuv_of(rgb);
    let (red, green, blue) = shares(matrix);
    let brightness = red * r + green * g + blue * b;
    let (y, u, v) = (yuv.y - 16, yuv.u - 128, yuv.v - 128);
    let (blue_unit, red_unit) = (255 * (10000 - blue), 255 * (10000 - red));
    if matrix == ColorMatrix::Bt601 {
        assert(y == (66 * r + 129 * g + 25 * b + 128) / 256);
        assert(u == (-38 * r + -74 * g + 112 * b + 128) / 256);
        assert(v == (112 * r + -94 * g + -18 * b + 128) / 256);
        assert(brightness == 2990 * r + 5870 * g + 1140 * b) by (nonlinear_arith)
            requires
                brightness == red * r + green * g + blue * b,
                red == 2990,
                green == 5870,
                blue == 1140,
        ;
        assert(u * blue_unit == 2_259_300 * u && v * red_unit == 1_787_550 * v)
            by (nonlinear_arith)
            requires
                blue_unit == 2_259_300,
                red_unit == 1_787_550,
        ;
    } else {
        assert(y == (47 * r + 157 * g + 16 * b + 128) / 256);
        assert(u == (-26 * r + -87 * g + 112 * b + 128) / 256);
        assert(v == (112 * r + -102 * g + -10 * b + 128) / 256);
        assert(brightness == 2126 * r + 7152 * g + 722 * b) by (nonlinear_arith)
            requires
                brightness == red * r + green * g + blue * b,
                red == 2126,
                green == 7152,
                blue == 722,
        ;
        assert(u * blue_unit == 2_365_890 * u && v * red_unit == 2_007_870 * v)
            by (nonlinear_arith)
            requires
                blue_unit == 2_365_890,
                red_unit == 2_007_870,
        ;
    }
}

/// Grey has no differences, but that bright greys lose one step of blue with BT.709.
pub proof fn law_greys_have_no_colour(matrix: ColorMatrix, level: u8)
    ensures
        ({
            let yuv = matrix.yuv_of(Rgb { r: level, g: level, b: level });
            &&& yuv.v == 128
            &&& 127 <= yuv.u <= 128
            &&& matrix == ColorMatrix::Bt601 || level <= 128 ==> yuv.u == 128
        }),
{
}

/// A colour is put together again from its brightness and its differences: red
/// exceeds the brightness by what the second says, blue by what the first says, and
/// green makes up for both.
pub proof fn law_colours_are_put_together_again(matrix: ColorMatrix, yuv: Yuv)
    ensures
        ({
            let (red, green, blue) = shares(matrix);
            let (y, u, v) = (yuv.y - 16, yuv.u - 128, yuv.v - 128);
            let rgb = matrix.rgb_of(yuv);
            let scale = 219int * 224 * 10000;
            let brightness = 255 * 224 * 10000 * y;
            let more_red = 255 * 219 * 2 * (10000 - red) * v;
            let more_blue = 255 * 219 * 2 * (10000 - blue) * u;
            &&& comes_to(rgb.r, brightness + more_red, scale)
            &&& comes_to(rgb.b, brightness + more_blue, scale)
            &&& comes_to(
                rgb.g,
                green * brightness - red * more_red - blue * more_blue,
                green * scale,
            )
        }),
{
    let (red, green, blue) = shares(matrix);
    let (y, u, v) = (yuv.y - 16, yuv.u - 128, yuv.v - 128);
    let brightness = 255int * 224 * 10000 * y;
    let more_red = 255int * 219 * 2 * (10000 - red) * v;
    let more_blue = 255int * 219 * 2 * (10000 - blue) * u;
    let green_mix = green * brightness - red * more_red - blue * more_blue;
    let rgb = matrix.rgb_of(yuv);
    assert(brightness == 571_200_000 * y);
    if matrix == ColorMatrix::Bt601 {
        assert(more_red == 782_946_900 * v && more_blue == 989_573_400 * u) by (nonlinear_arith)
            requires
                more_red == 255int * 219 * 2 * (10000 - red) * v,
                more_blue == 255int * 219 * 2 * (10000 - blue) * u,
                red == 2990,
                blue == 1140,
        ;
        assert(green_mix == 5870 * brightness - 2990 * more_red - 1140 * more_blue)
            by (nonlinear_arith)
            requires
                green_mix == green * brightness - red * more_red - blue * more_blue,
                red == 2990,
                green == 5870,
                blue == 1140,
        ;
        assert(green * 490_560_000 == 5870 * 490_560_000);
        assert(rgb.r == crate::color::clamped((298 * y + 409 * v + 128) / 256));
        assert(rgb.g == crate::color::clamped((298 * y + -100 * u + -208 * v + 128) / 256));
        assert(rgb.b == crate::color::clamped((298 * y + 516 * u + 128) / 256));
        assert(comes_to(rgb.r, brightness + more_red, 490_560_000));
        assert(comes_to(rgb.b, brightness + more_blue, 490_560_000));
        assert(comes_to(rgb.g, green_mix, 5870int * 490_560_000));
    } else {
        assert(more_red == 879_447_060 * v && more_blue == 1_036_259_820 * u) by (nonlinear_arith)
            requires
                more_red == 255int * 219 * 2 * (10000 - red) * v,
                more_blue == 255int * 219 * 2 * (10000 - blue) * u,
                red == 2126,
                blue == 722,
        ;
        assert(green_mix == 7152 * brightness - 2126 * more_red - 722 * more_blue)
            by (nonlinear_arith)
            requires
                green_mix == green * brightness - red * more_red - blue * more_blue,
                red == 2126,
                green == 7152,
                blue == 722,
        ;
        assert(green * 490_560_000 == 7152 * 490_560_000);
        assert(rgb.r == crate::color::clamped((298 * y + 459 * v + 128) / 256));
        assert(rgb.g == crate::color::clamped((298 * y + -55 * u + -136 * v + 128) / 256));
        assert(rgb.b == crate::color::clamped((298 * y + 541 * u + 128) / 256));
        assert(comes_to(rgb.r, brightness + more_red, 490_560_000));
        assert(comes_to(rgb.b, brightness + more_blue, 490_560_000));
        assert(comes_to(rgb.g, green_mix, 7152int * 490_560_000));
    }
}

} // verus!
