//! The graphics card shows the same part of the camera's picture as the processor.

use vstd::prelude::*;

use crate::double::FINE;
use crate::frame::{Dims, FrameSize};
use crate::gpu::{AffineMap, Buffer, Constant, Shader};
use crate::gpu_pipeline::{BlurChain, GpuPipeline};
use crate::orientation::{Orientation, Rotation};
use crate::pipeline::OutputFormat;
use crate::scale::ScaleMode;

verus! {

/// Where the centre of a target cell falls along an axis of a picture, if a part of
/// the length `num / den` in the middle is spread evenly over the target: a number
/// of units of `1 / (2 * target_len * den)`, from the edge of the picture.
pub open spec fn falls(index: int, len: int, target_len: int, num: int, den: int) -> int {
    (2 * index + 1) * num + (len * den - num) * target_len
}

/// Along one axis the centres of the cells of a target fall where the exact fractions
/// say, counted from either end.
proof fn lemma_axis_falls(
    len: int,
    target_len: int,
    scale: int,
    num: int,
    den: int,
    turned: bool,
    mirrored: bool,
    x: int,
)
    requires
        0 < len <= 65_536,
        0 < target_len <= 65_536,
        crate::double::double(target_len * FINE, len) <= scale,
        0 < scale,
        0 <= x < target_len,
        crate::geometry::in_the_middle(
            crate::scale::shown_part(ScaleMode::Fill, len, target_len, scale),
            len,
            num,
            den,
        ),
    ensures
        ({
            let ends = crate::gpu::ends_of(
                crate::scale::shown_part(ScaleMode::Fill, len, target_len, scale),
                target_len,
            );
            let first = crate::gpu::placed(ends.first, len, turned, mirrored);
            let step = crate::gpu::step_of(ends, len, turned, mirrored);
            let grid = target_len * den;
            let place = if turned != mirrored {
                2 * (len * grid) - falls(x, len, target_len, num, den)
            } else {
                falls(x, len, target_len, num, den)
            };
            &&& 0 < grid
            &&& -(grid * FINE) <= 512 * (grid * (step * (2 * x + 1) + 2 * first) - place * FINE)
                <= grid * FINE
            &&& -0x10_0000 * FINE <= first <= 0x10_0000 * FINE
            &&& -0x10_0000 * FINE <= step <= 0x10_0000 * FINE
        }),
{
    crate::gpu::lemma_axis_inside(len, target_len, scale, turned, mirrored, x);
    let (f, s) = (FINE as int, crate::precision::DOUBLE as int);
    let g = f / 0x4000_0000;
    let shown = crate::scale::shown_part(ScaleMode::Fill, len, target_len, scale);
    let ends = crate::gpu::ends_of(shown, target_len);
    let (start, length) = (shown.start, shown.length);
    crate::gpu::lemma_shown_length(len, target_len, scale);
    assert(0 < len * f <= 65_536 * f) by (nonlinear_arith)
        requires
            0 < len <= 65_536,
            0 < f,
    ;
    crate::gpu::lemma_small_error(len * f - length);
    assert(-(g + 1) <= start && start + length <= len * f + 2 * g + 2 && start <= len * f);
    let part = crate::double::double(length, target_len);
    crate::precision::lemma_nearest(length, target_len, s);
    crate::precision::lemma_nearest_error(length, target_len, s);
    let all = part * target_len;
    assert(s * target_len <= s * 65_536) by (nonlinear_arith)
        requires
            target_len <= 65_536,
            0 < s,
    ;
    assert(all <= length + g && length <= all + g);
    assert(0 <= part <= all) by (nonlinear_arith)
        requires
            0 <= part,
            all == part * target_len,
            1 <= target_len,
    ;
    crate::gpu::lemma_small_error(start + part);
    crate::gpu::lemma_placed(ends.first, len, turned, mirrored);
    crate::gpu::lemma_placed(ends.second, len, turned, mirrored);
    let backwards = turned != mirrored;
    let (first, second) = (
        crate::gpu::placed(ends.first, len, turned, mirrored),
        crate::gpu::placed(ends.second, len, turned, mirrored),
    );
    crate::gpu::lemma_small_error(second - first);
    let step = crate::gpu::step_of(ends, len, turned, mirrored);
    let exact = if backwards {
        -part
    } else {
        part
    };
    assert(exact - 6 * g <= step <= exact + 6 * g);
    let a = 2 * x + 1;
    let slip = 6 * g * 131_072;
    assert(exact * a - slip <= step * a <= exact * a + slip) by (nonlinear_arith)
        requires
            exact - 6 * g <= step <= exact + 6 * g,
            0 <= a <= 131_072,
            0 <= g,
            slip == 6 * g * 131_072,
    {
        assert((exact - 6 * g) * a <= step * a <= (exact + 6 * g) * a);
        assert((6 * g) * a <= (6 * g) * 131_072);
    }
    assert((-part) * a == -(part * a)) by (nonlinear_arith);
    // The step and the first cell, as if they were exact.
    let double_place = step * a + 2 * first;
    let forward = part * a + 2 * start;
    let near_place = if backwards {
        2 * (len * f) - forward
    } else {
        forward
    };
    let off = slip + 4 * g;
    assert(near_place - off <= double_place <= near_place + off);
    let grid = target_len * den;
    let place = falls(x, len, target_len, num, den);
    lemma_forward(part, a, start, length, len, target_len, num, den, f, g);
    assert(0 < grid) by (nonlinear_arith)
        requires
            grid == target_len * den,
            0 < target_len,
            0 < den,
    ;
    assert(grid * near_place - grid * off <= grid * double_place <= grid * near_place + grid * off)
        by (nonlinear_arith)
        requires
            near_place - off <= double_place <= near_place + off,
            0 < grid,
    ;
    assert(grid * (2 * (len * f) - forward) == 2 * (len * grid) * f - grid * forward)
        by (nonlinear_arith);
    assert((2 * (len * grid) - place) * f == 2 * (len * grid) * f - place * f) by (nonlinear_arith);
    let rest = 2 * g + 4 * (f / 0x2_0000);
    assert(512 * (grid * rest) + 512 * (grid * off) <= grid * f) by (nonlinear_arith)
        requires
            512 * (rest + off) <= f,
            0 < grid,
    ;
}

/// What is spread forwards over the target lies at the exact fractions.
proof fn lemma_forward(
    part: int,
    a: int,
    start: int,
    length: int,
    len: int,
    target_len: int,
    num: int,
    den: int,
    f: int,
    g: int,
)
    requires
        0 < target_len,
        0 < den,
        0 <= a <= 2 * target_len,
        0 <= g,
        f == FINE,
        part * target_len <= length + g,
        length <= part * target_len + g,
        ({
            let slack = den * (f / 0x2_0000);
            &&& num * f - slack <= length * den <= num * f + slack
            &&& (len * den - num) * f - 2 * slack <= den * (2 * start) <= (len * den - num) * f + 2
                * slack
        }),
    ensures
        ({
            let grid = target_len * den;
            let place = a * num + (len * den - num) * target_len;
            let rest = grid * (2 * g + 4 * (f / 0x2_0000));
            -rest <= grid * (part * a + 2 * start) - place * f <= rest
        }),
{
    let grid = target_len * den;
    let e = f / 0x2_0000;
    let slack = den * e;
    let all = part * target_len;
    let left = len * den - num;
    let (p, q) = (length * den, den * (2 * start));
    // Along the cells.
    assert(grid * (part * a) == (all * den) * a) by (nonlinear_arith)
        requires
            grid == target_len * den,
            all == part * target_len,
    ;
    assert(p - den * g <= all * den <= p + den * g) by (nonlinear_arith)
        requires
            length - g <= all <= length + g,
            p == length * den,
            0 < den,
    ;
    let wide = den * g + slack;
    assert(num * f - wide <= all * den <= num * f + wide);
    let cells = all * den;
    assert((num * f) * a - wide * a <= cells * a <= (num * f) * a + wide * a) by (nonlinear_arith)
        requires
            num * f - wide <= cells <= num * f + wide,
            0 <= a,
    ;
    assert(0 <= slack && 0 <= den * g) by (nonlinear_arith)
        requires
            slack == den * e,
            0 <= e,
            0 <= g,
            0 < den,
    ;
    assert(wide * a <= 2 * (wide * target_len)) by (nonlinear_arith)
        requires
            0 <= wide,
            a <= 2 * target_len,
    ;
    // From the start.
    assert(grid * (2 * start) == q * target_len) by (nonlinear_arith)
        requires
            grid == target_len * den,
            q == den * (2 * start),
    ;
    assert((left * f) * target_len - 2 * (slack * target_len) <= q * target_len <= (left * f)
        * target_len + 2 * (slack * target_len)) by (nonlinear_arith)
        requires
            left * f - 2 * slack <= q <= left * f + 2 * slack,
            0 < target_len,
    ;
    assert(grid * (part * a + 2 * start) == grid * (part * a) + grid * (2 * start))
        by (nonlinear_arith);
    assert((a * num + left * target_len) * f == (num * f) * a + (left * f) * target_len)
        by (nonlinear_arith);
    assert(2 * (wide * target_len) + 2 * (slack * target_len) == grid * (2 * g + 4 * e))
        by (nonlinear_arith)
        requires
            wide == den * g + slack,
            slack == den * e,
            grid == target_len * den,
    ;
}

/// The card samples the camera's picture where the exact fractions say, to within a
/// 1024th of a pixel: the target shows the part in the middle of the turned picture
/// that fills it, and the turn and the mirroring are undone on the way to the
/// camera's picture.
pub proof fn law_the_map_shows_the_middle_of_the_turned_picture(
    orientation: Orientation,
    source: Dims,
    target: Dims,
    x: int,
    y: int,
)
    requires
        source.valid(),
        target.valid(),
        source.width <= 65_536,
        source.height <= 65_536,
        target.width <= 65_536,
        target.height <= 65_536,
        0 <= x < target.width,
        0 <= y < target.height,
    ensures
        ({
            let map = crate::gpu::map_of(orientation, source, target);
            let turned = orientation.rotation == Rotation::Clockwise90 || orientation.rotation
                == Rotation::Clockwise270;
            let (w, h) = if turned {
                (source.height, source.width)
            } else {
                (source.width, source.height)
            };
            let (wn, wd) = crate::geometry::visible(
                ScaleMode::Fill,
                w,
                target.width,
                h,
                target.height,
            );
            let (hn, hd) = crate::geometry::visible(
                ScaleMode::Fill,
                h,
                target.height,
                w,
                target.width,
            );
            let (gx, gy) = (target.width * wd, target.height * hd);
            let px = falls(x, w, target.width, wn, wd);
            let py = falls(y, h, target.height, hn, hd);
            let (across, gu) = match orientation.rotation {
                Rotation::Upright => (px, gx),
                Rotation::Clockwise90 => (py, gy),
                Rotation::Clockwise180 => (2 * (source.width * gx) - px, gx),
                Rotation::Clockwise270 => (2 * (source.width * gy) - py, gy),
            };
            let (down, gv) = match orientation.rotation {
                Rotation::Upright => (py, gy),
                Rotation::Clockwise90 => (2 * (source.height * gx) - px, gx),
                Rotation::Clockwise180 => (2 * (source.height * gy) - py, gy),
                Rotation::Clockwise270 => (px, gx),
            };
            let u = if orientation.mirror_horizontal {
                2 * (source.width * gu) - across
            } else {
                across
            };
            let v = if orientation.mirror_vertical {
                2 * (source.height * gv) - down
            } else {
                down
            };
            let (a, b) = (2 * x + 1, 2 * y + 1);
            &&& -(gu * FINE) <= 512 * (gu * (map.xx.value() * a + map.xy.value() * b + 2
                * map.x0.value()) - u * FINE) <= gu * FINE
            &&& -(gv * FINE) <= 512 * (gv * (map.yx.value() * a + map.yy.value() * b + 2
                * map.y0.value()) - v * FINE) <= gv * FINE
        }),
{
    let oriented = orientation.oriented_size(source);
    let (w, h) = (oriented.width, oriented.height);
    let scale = crate::scale::fill_scale(w, h, target.width, target.height);
    crate::scale::lemma_ratio(target.width, w);
    crate::scale::lemma_ratio(target.height, h);
    let (wn, wd) = crate::geometry::visible(ScaleMode::Fill, w, target.width, h, target.height);
    let (hn, hd) = crate::geometry::visible(ScaleMode::Fill, h, target.height, w, target.width);
    crate::geometry::lemma_shown_error(
        ScaleMode::Fill,
        w,
        target.width,
        h,
        target.height,
        scale,
    );
    crate::geometry::lemma_shown_error(
        ScaleMode::Fill,
        h,
        target.height,
        w,
        target.width,
        scale,
    );
    let (tx, ty) = (
        crate::gpu::turned_across(orientation.rotation),
        crate::gpu::turned_down(orientation.rotation),
    );
    let (mx, my) = (orientation.mirror_horizontal, orientation.mirror_vertical);
    let (ends_x, ends_y) = crate::gpu::target_ends(orientation, source, target);
    let (across, down) = if orientation.swaps() {
        (ends_y, ends_x)
    } else {
        (ends_x, ends_y)
    };
    if orientation.swaps() {
        lemma_axis_falls(source.width, target.height, scale, hn, hd, tx, mx, y);
        lemma_axis_falls(source.height, target.width, scale, wn, wd, ty, my, x);
    } else {
        lemma_axis_falls(source.width, target.width, scale, wn, wd, tx, mx, x);
        lemma_axis_falls(source.height, target.height, scale, hn, hd, ty, my, y);
    }
    crate::gpu::lemma_signed_of(0);
    crate::gpu::lemma_signed_of(crate::gpu::step_of(across, source.width, tx, mx));
    crate::gpu::lemma_signed_of(crate::gpu::step_of(down, source.height, ty, my));
    crate::gpu::lemma_signed_of(crate::gpu::placed(across.first, source.width, tx, mx));
    crate::gpu::lemma_signed_of(crate::gpu::placed(down.first, source.height, ty, my));
    assert(0 * (2 * x + 1) == 0 && 0 * (2 * y + 1) == 0);
}

/// Both planes of the camera's frame are laid over the output by one map: the two runs are
/// told the same but for the plane, and have enough groups of sixteen by sixteen
/// cells for the plane's own cells.
pub proof fn law_both_planes_are_laid_over_the_output_alike(
    camera: Dims,
    output: Dims,
    map: AffineMap,
    i: int,
)
    requires
        output.valid(),
        0 <= i < 14,
    ensures
        ({
            let luma = crate::gpu_pipeline::orient_launch(camera, output, map, 0);
            let chroma = crate::gpu_pipeline::orient_launch(camera, output, map, 1);
            &&& luma.shader == chroma.shader
            &&& luma.unordered == chroma.unordered
            &&& luma.shader_resource == chroma.shader_resource
            &&& i != 4 ==> luma.constants[i] == chroma.constants[i]
            &&& luma.constants[4] == Constant::Number(0)
            &&& chroma.constants[4] == Constant::Number(1)
            &&& output.width <= 16 * luma.groups.0 < output.width + 16
            &&& output.height <= 16 * luma.groups.1 < output.height + 16
            &&& output.width / 2 <= 16 * chroma.groups.0 < output.width / 2 + 16
            &&& output.height / 2 <= 16 * chroma.groups.1 < output.height / 2 + 16
        }),
{
    crate::gpu::law_groups_cover_the_grid(output.width as u32, output.height as u32);
    crate::gpu::law_groups_cover_the_grid(
        (output.width / 2) as u32,
        (output.height / 2) as u32,
    );
}

/// The card puts behind the frame the colour that the processor puts there, with the
/// matrix that the output goes by.
pub proof fn law_the_card_takes_the_chosen_colour(
    pipeline: GpuPipeline,
    mask: Option<FrameSize>,
    format: OutputFormat,
    frame: crate::frame::Nv12,
)
    requires
        pipeline.settings.effect is Color || pipeline.settings.effect is Transparent,
    ensures
        ({
            let settings = pipeline.settings;
            let launch = pipeline.composite_launch(mask, format);
            &&& crate::pipeline::backdrop_of(settings.effect, frame, settings.matrix_spec()) matches
                crate::composite::Backdrop::Solid(color)
            &&& launch.constants[8] == crate::gpu::byte(color.y)
            &&& launch.constants[9] == crate::gpu::byte(color.u)
            &&& launch.constants[10] == crate::gpu::byte(color.v)
            &&& launch.constants[5] == Constant::Number(
                if settings.effect is Transparent && format is Bgra {
                    1
                } else {
                    0
                },
            )
        }),
{
}

/// The card's blur starts with the frame at half its size, halves each level to the next,
/// as often as the processor halves chroma, and ends in the background at full size.
pub proof fn law_the_card_halves_as_the_processor_does(chain: BlurChain, output: Dims, i: int)
    requires
        output.valid(),
        chain.fits(output),
        0 <= i,
        i + 1 < chain.levels@.len(),
    ensures
        ({
            let levels = chain.levels@;
            let way = crate::gpu_pipeline::blur_way(chain, output);
            &&& levels[0].width == output.width / 2
            &&& levels[0].height == output.height / 2
            &&& levels[i].width <= 2 * levels[i + 1].width <= levels[i].width + 1
            &&& levels[i].height <= 2 * levels[i + 1].height <= levels[i].height + 1
            &&& levels.len() == crate::blur::level_count(
                output.width / 2,
                output.height / 2,
                ((chain.strength.levels() - crate::precision::ONE)
                    / crate::precision::ONE as int) as nat,
            ) + 1
            &&& way[0].unordered.0 == Buffer::Frame
            &&& way[i + 1].shader == Shader::BlurDownsample
            &&& way[i + 1].unordered.0 == Buffer::BlurData(i as usize)
            &&& way[i + 1].unordered.1 == Buffer::BlurData((i + 1) as usize)
            &&& way.last().unordered.1 == Buffer::BlurBackground
            &&& way.last().constants[2] == Constant::Number(output.width as u32)
            &&& way.last().constants[3] == Constant::Number(output.height as u32)
        }),
{
    let levels = chain.levels@;
    let (w, h) = (output.width / 2, output.height / 2);
    lemma_halving(w, i as nat);
    lemma_halving(h, i as nat);
    lemma_halving(w, (i + 1) as nat);
    lemma_halving(h, (i + 1) as nat);
    assert(crate::blur::halvings(w, 0) == w && crate::blur::halvings(h, 0) == h);
    let down = crate::gpu_pipeline::way_down(levels, output);
    let way = crate::gpu_pipeline::blur_way(chain, output);
    assert(way[i + 1] == down[i]);
}

/// A length stays a length that the card can count.
proof fn lemma_halving(len: int, times: nat)
    requires
        0 < len <= u32::MAX,
    ensures
        0 < crate::blur::halvings(len, times) <= u32::MAX,
    decreases times,
{
    if times > 0 {
        lemma_halving(len, (times - 1) as nat);
    }
}

} // verus!
