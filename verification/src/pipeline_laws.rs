//! What the pipeline makes of a camera frame, pixel by pixel.

use vstd::prelude::*;

use crate::background::Picture;
use crate::color::{ColorMatrix, Rgb};
use crate::frame::Nv12;
use crate::pipeline::{BackgroundEffect, OutputFormat, PipelineSettings, Shown};
use crate::scale::ScaleMode;

verus! {

/// Where both masks are opaque the camera's picture is shown as it is, in its luma, in
/// its chroma and in its colours, whatever the effect.
pub proof fn law_the_person_is_shown_as_filmed(
    effect: BackgroundEffect,
    frame: Nv12,
    luma: Seq<u8>,
    chroma: Seq<u8>,
    matrix: ColorMatrix,
    column: int,
    row: int,
)
    requires
        frame.valid(),
        0 <= column < frame.size.width,
        0 <= row < frame.size.height,
        luma[row * frame.size.width + column] == 255,
        chroma[(row / 2) * (frame.size.width / 2) + column / 2] == 255,
    ensures
        ({
            let pixel = row * frame.size.width + column;
            let pair = ((row / 2) * (frame.size.width / 2) + column / 2) * 2;
            let color = matrix.rgb_of(
                crate::color::Yuv {
                    y: frame.luma[pixel],
                    u: frame.chroma[pair],
                    v: frame.chroma[pair + 1],
                },
            );
            &&& crate::pipeline::shown(effect, frame, luma, chroma, matrix, OutputFormat::Nv12)
                matches Shown::Nv12(output)
            &&& output.size == frame.size
            &&& output.luma[pixel] == frame.luma[pixel]
            &&& output.chroma[pair] == frame.chroma[pair]
            &&& output.chroma[pair + 1] == frame.chroma[pair + 1]
            &&& crate::pipeline::shown(effect, frame, luma, chroma, matrix, OutputFormat::Bgra)
                matches Shown::Bgra(picture)
            &&& picture.size == frame.size
            &&& picture.data[pixel * 4] == color.b
            &&& picture.data[pixel * 4 + 1] == color.g
            &&& picture.data[pixel * 4 + 2] == color.r
            &&& picture.data[pixel * 4 + 3] == 255
        }),
{
    let pixel = row * frame.size.width + column;
    let sample = (row / 2) * (frame.size.width / 2) + column / 2;
    lemma_pixel(frame, column, row);
    let backdrop = crate::pipeline::backdrop_of(effect, frame, matrix);
    let mixed = crate::composite::blended_frame(frame, backdrop, luma, chroma);
    crate::composite::law_luma_is_blended_pixel_by_pixel(frame, backdrop, luma, chroma, pixel);
    crate::composite::law_chroma_is_blended_pair_by_pair(frame, backdrop, luma, chroma, sample);
    lemma_full_share();
    crate::composite::law_a_pixel_has_its_own_colour(frame, None, matrix, column, row);
    crate::composite::law_a_pixel_has_its_own_colour(frame, Some(luma), matrix, column, row);
    crate::composite::law_a_pixel_has_its_own_colour(mixed, None, matrix, column, row);
}

/// The pixel and its chroma pair lie inside their planes.
proof fn lemma_pixel(frame: Nv12, column: int, row: int)
    requires
        frame.valid(),
        0 <= column < frame.size.width,
        0 <= row < frame.size.height,
    ensures
        0 <= row * frame.size.width + column < frame.luma.len(),
        0 <= (row / 2) * (frame.size.width / 2) + column / 2 < frame.size.chroma_area(),
        frame.chroma.len() == frame.size.chroma_area() * 2,
{
    crate::arith::lemma_cell_in_plane(row, column, frame.size.width, frame.size.height);
    crate::composite::lemma_chroma_pair_in_plane(frame.size, column, row);
    crate::arith::lemma_cell_in_plane(
        row / 2,
        column / 2,
        frame.size.chroma_width(),
        frame.size.chroma_height(),
    );
}

/// The whole of a mean is the byte that counts.
proof fn lemma_full_share()
    ensures
        forall|value: u8, front: u8, behind: u8|
            #[trigger] crate::composite::mixes(value, front, behind, 255) ==> value == front,
        forall|value: u8, front: u8, behind: u8|
            #[trigger] crate::composite::mixes(value, front, behind, 0) ==> value == behind,
{
    assert forall|value: u8, front: u8, behind: u8|
        #[trigger] crate::composite::mixes(value, front, behind, 255) implies value == front by {
        assert(front * 255 == 255 * front && behind * (255 - 255) == 0) by (nonlinear_arith);
    }
    assert forall|value: u8, front: u8, behind: u8|
        #[trigger] crate::composite::mixes(value, front, behind, 0) implies value == behind by {
        assert(front * 0 == 0 && behind * (255 - 0) == 255 * behind) by (nonlinear_arith);
    }
}

/// Each byte that is shown is mixed from the camera's byte and the one behind it, by the
/// opacity at its place. Behind lies the colour of the effect, the camera's
/// picture blurred, or the picture of the effect at the size of the frame.
pub proof fn law_effects_lie_behind_the_person(
    effect: BackgroundEffect,
    frame: Nv12,
    luma: Seq<u8>,
    chroma: Seq<u8>,
    matrix: ColorMatrix,
    column: int,
    row: int,
)
    requires
        frame.valid(),
        0 <= column < frame.size.width,
        0 <= row < frame.size.height,
        !(effect is Passthrough),
    ensures
        ({
            let pixel = row * frame.size.width + column;
            let sample = (row / 2) * (frame.size.width / 2) + column / 2;
            let (y, u, v) = match effect {
                BackgroundEffect::Color(rgb) => {
                    let color = matrix.yuv_of(rgb);
                    (color.y, color.u, color.v)
                },
                BackgroundEffect::Transparent { fallback } => {
                    let color = matrix.yuv_of(fallback);
                    (color.y, color.u, color.v)
                },
                BackgroundEffect::Image(picture) => {
                    let behind = crate::background::frame_of_picture(picture@, frame.size, matrix);
                    (behind.luma[pixel], behind.chroma[sample * 2], behind.chroma[sample * 2 + 1])
                },
                BackgroundEffect::Blur { strength } => {
                    let behind = crate::blur::blurred(frame, strength.limited());
                    (behind.luma[pixel], behind.chroma[sample * 2], behind.chroma[sample * 2 + 1])
                },
                BackgroundEffect::Passthrough => (0, 0, 0),
            };
            &&& crate::pipeline::shown(effect, frame, luma, chroma, matrix, OutputFormat::Nv12)
                matches Shown::Nv12(output)
            &&& crate::composite::mixes(output.luma[pixel], frame.luma[pixel], y, luma[pixel])
            &&& crate::composite::mixes(
                output.chroma[sample * 2],
                frame.chroma[sample * 2],
                u,
                chroma[sample],
            )
            &&& crate::composite::mixes(
                output.chroma[sample * 2 + 1],
                frame.chroma[sample * 2 + 1],
                v,
                chroma[sample],
            )
        }),
{
    let pixel = row * frame.size.width + column;
    let sample = (row / 2) * (frame.size.width / 2) + column / 2;
    lemma_pixel(frame, column, row);
    let backdrop = crate::pipeline::backdrop_of(effect, frame, matrix);
    crate::composite::law_luma_is_blended_pixel_by_pixel(frame, backdrop, luma, chroma, pixel);
    crate::composite::law_chroma_is_blended_pair_by_pair(frame, backdrop, luma, chroma, sample);
}

/// A colour that is chosen for the background is the colour that is seen there, to
/// within the rounding of its conversion: as an effect, as the fallback of
/// transparency, and as a picture of one colour.
pub proof fn law_the_chosen_colour_is_seen(
    effect: BackgroundEffect,
    color: Rgb,
    frame: Nv12,
    luma: Seq<u8>,
    chroma: Seq<u8>,
    matrix: ColorMatrix,
    column: int,
    row: int,
)
    requires
        frame.valid(),
        0 <= column < frame.size.width,
        0 <= row < frame.size.height,
        luma[row * frame.size.width + column] == 0,
        chroma[(row / 2) * (frame.size.width / 2) + column / 2] == 0,
        match effect {
            BackgroundEffect::Color(chosen) => chosen == color,
            BackgroundEffect::Transparent { fallback } => fallback == color,
            BackgroundEffect::Image(picture) => picture@.valid() && picture@ == Picture::solid(
                picture@.width,
                picture@.height,
                color,
            ),
            _ => false,
        },
    ensures
        ({
            let at = (row * frame.size.width + column) * 4;
            &&& crate::pipeline::shown(effect, frame, luma, chroma, matrix, OutputFormat::Nv12)
                matches Shown::Nv12(output)
            &&& ({
                let data = crate::composite::bgra_of(output, None, matrix).data;
                &&& -4 <= data[at] - color.b <= 4
                &&& -2 <= data[at + 1] - color.g <= 2
                &&& -2 <= data[at + 2] - color.r <= 2
                &&& data[at + 3] == 255
            })
            &&& !(effect is Transparent) ==> {
                &&& crate::pipeline::shown(effect, frame, luma, chroma, matrix, OutputFormat::Bgra)
                    matches Shown::Bgra(picture)
                &&& -4 <= picture.data[at] - color.b <= 4
                &&& -2 <= picture.data[at + 1] - color.g <= 2
                &&& -2 <= picture.data[at + 2] - color.r <= 2
                &&& picture.data[at + 3] == 255
            }
        }),
{
    let pixel = row * frame.size.width + column;
    let sample = (row / 2) * (frame.size.width / 2) + column / 2;
    lemma_pixel(frame, column, row);
    law_effects_lie_behind_the_person(effect, frame, luma, chroma, matrix, column, row);
    lemma_full_share();
    if let BackgroundEffect::Image(picture) = effect {
        crate::background::law_solid_pictures_become_uniform_frames(
            picture@.width,
            picture@.height,
            color,
            frame.size,
            matrix,
        );
    }
    let yuv = matrix.yuv_of(color);
    let mixed = crate::composite::blended_frame(
        frame,
        crate::pipeline::backdrop_of(effect, frame, matrix),
        luma,
        chroma,
    );
    assert(mixed.luma[pixel] == yuv.y);
    assert(mixed.chroma[sample * 2] == yuv.u);
    assert(mixed.chroma[sample * 2 + 1] == yuv.v);
    crate::composite::law_a_pixel_has_its_own_colour(mixed, None, matrix, column, row);
    crate::color::law_round_trip_stays_within_rounding_error(matrix, color);
}

/// Both formats show the same picture, but that transparency shows only in the one
/// that can carry it.
pub proof fn law_both_formats_show_one_picture(
    effect: BackgroundEffect,
    frame: Nv12,
    luma: Seq<u8>,
    chroma: Seq<u8>,
    matrix: ColorMatrix,
)
    requires
        !(effect is Transparent),
    ensures
        crate::pipeline::shown(effect, frame, luma, chroma, matrix, OutputFormat::Nv12) matches
            Shown::Nv12(output) && crate::pipeline::shown(
            effect,
            frame,
            luma,
            chroma,
            matrix,
            OutputFormat::Bgra,
        ) == Shown::Bgra(crate::composite::bgra_of(output, None, matrix)),
{
}

/// A camera frame is turned before it is scaled: what is prepared of it is what would be
/// prepared of the turned frame. It has the size of the output, and where the turned
/// frame has that size already nothing is scaled.
pub proof fn law_frames_are_turned_and_then_scaled(
    input: Nv12,
    settings: PipelineSettings,
    upright: PipelineSettings,
)
    requires
        input.valid(),
        upright.output == settings.output,
        upright.orientation == crate::orientation::upright(),
    ensures
        ({
            let turned = settings.orientation.oriented(input);
            let prepared = crate::pipeline::prepared_frame(input, settings);
            &&& prepared == crate::pipeline::prepared_frame(turned, upright)
            &&& prepared.size == settings.output@
            &&& turned.size == settings.output@ ==> prepared == turned
        }),
{
    let turned = settings.orientation.oriented(input);
    crate::orientation::law_oriented_frames_are_valid(settings.orientation, input);
    crate::orientation::law_upright_changes_nothing(turned);
}

/// A frame fills the output and keeps its aspect ratio: what an upright frame
/// shows at a pixel lies at its place in the middle part that the output has room
/// for, and frames that agree there give the same luma.
pub proof fn law_prepared_frames_fill_the_output(
    input: Nv12,
    other: Nv12,
    settings: PipelineSettings,
    column: int,
    row: int,
)
    requires
        input.valid(),
        other.valid(),
        input.size == other.size,
        settings.output@.valid(),
        settings.orientation == crate::orientation::upright(),
        0 <= column < settings.output@.width,
        0 <= row < settings.output@.height,
        ({
            let size = input.size;
            let target = settings.output@;
            let (wn, wd) = crate::geometry::visible(
                ScaleMode::Fill,
                size.width,
                target.width,
                size.height,
                target.height,
            );
            let (hn, hd) = crate::geometry::visible(
                ScaleMode::Fill,
                size.height,
                target.height,
                size.width,
                target.width,
            );
            forall|x: int, y: int|
                #![trigger crate::geometry::near(column, x, size.width, target.width, wn, wd), crate::geometry::near(row, y, size.height, target.height, hn, hd)]
                0 <= x < size.width && 0 <= y < size.height && crate::geometry::near(
                    column,
                    x,
                    size.width,
                    target.width,
                    wn,
                    wd,
                ) && crate::geometry::near(row, y, size.height, target.height, hn, hd)
                    ==> input.luma[y * size.width + x] == other.luma[y * size.width + x]
        }),
    ensures
        ({
            let at = row * settings.output@.width + column;
            crate::pipeline::prepared_frame(input, settings).luma[at]
                == crate::pipeline::prepared_frame(other, settings).luma[at]
        }),
{
    crate::orientation::law_upright_changes_nothing(input);
    crate::orientation::law_upright_changes_nothing(other);
    let size = input.size;
    let target = settings.output@;
    let (wn, wd) = crate::geometry::visible(
        ScaleMode::Fill,
        size.width,
        target.width,
        size.height,
        target.height,
    );
    let (hn, hd) = crate::geometry::visible(
        ScaleMode::Fill,
        size.height,
        target.height,
        size.width,
        target.width,
    );
    assert forall|x: int, y: int|
        #![trigger crate::geometry::near(column, x, size.width, target.width, wn, wd), crate::geometry::near(row, y, size.height, target.height, hn, hd)]
        0 <= x < size.width && 0 <= y < size.height && crate::geometry::near(
            column,
            x,
            size.width,
            target.width,
            wn,
            wd,
        ) && crate::geometry::near(row, y, size.height, target.height, hn, hd) implies input.luma[y
        * size.width + x] == other.luma[y * size.width + x] by {}
    crate::geometry::law_scaled_luma_shows_what_lies_there(
        input,
        other,
        settings.output@,
        ScaleMode::Fill,
        column,
        row,
    );
}

/// The chroma of a prepared frame comes from the same middle part of the frame as its luma:
/// at each chroma sample from its place in the chroma plane, of which half as many
/// samples as pixels are visible along either axis.
pub proof fn law_prepared_chroma_lies_where_luma_lies(
    input: Nv12,
    other: Nv12,
    settings: PipelineSettings,
    column: int,
    row: int,
    channel: int,
)
    requires
        input.valid(),
        other.valid(),
        input.size == other.size,
        settings.output@.valid(),
        settings.orientation == crate::orientation::upright(),
        0 <= column < settings.output@.width / 2,
        0 <= row < settings.output@.height / 2,
        0 <= channel < 2,
        ({
            let size = input.size;
            let target = settings.output@;
            let (wn, wd) = crate::geometry::visible(
                ScaleMode::Fill,
                size.width,
                target.width,
                size.height,
                target.height,
            );
            let (hn, hd) = crate::geometry::visible(
                ScaleMode::Fill,
                size.height,
                target.height,
                size.width,
                target.width,
            );
            let (w, h, tw, th) = (
                size.width / 2,
                size.height / 2,
                target.width / 2,
                target.height / 2,
            );
            forall|x: int, y: int|
                #![trigger crate::geometry::near(column, x, w, tw, wn, 2 * wd), crate::geometry::near(row, y, h, th, hn, 2 * hd)]
                0 <= x < w && 0 <= y < h && crate::geometry::near(column, x, w, tw, wn, 2 * wd)
                    && crate::geometry::near(row, y, h, th, hn, 2 * hd) ==> input.chroma[(y * w + x)
                    * 2 + channel] == other.chroma[(y * w + x) * 2 + channel]
        }),
    ensures
        ({
            let at = (row * (settings.output@.width / 2) + column) * 2 + channel;
            crate::pipeline::prepared_frame(input, settings).chroma[at]
                == crate::pipeline::prepared_frame(other, settings).chroma[at]
        }),
{
    crate::orientation::law_upright_changes_nothing(input);
    crate::orientation::law_upright_changes_nothing(other);
    crate::geometry::law_scaled_chroma_lies_where_luma_lies(
        input,
        other,
        settings.output@,
        ScaleMode::Fill,
        column,
        row,
        channel,
    );
}

/// Without a choice, colours are those of high definition where both sides of the output
/// have 720 pixels or more; an output that stands upright has the same as one that
/// lies on its side.
pub proof fn law_the_matrix_goes_by_the_shorter_side(
    settings: PipelineSettings,
    turned: PipelineSettings,
)
    requires
        settings.color_matrix == turned.color_matrix,
        settings.output@.width == turned.output@.height,
        settings.output@.height == turned.output@.width,
    ensures
        settings.matrix_spec() == turned.matrix_spec(),
        settings.color_matrix is None ==> {
            settings.matrix_spec() == ColorMatrix::Bt709 <==> settings.output@.width >= 720
                && settings.output@.height >= 720
        },
        settings.color_matrix matches Some(chosen) ==> settings.matrix_spec() == chosen,
{
}

} // verus!
