//! What settings mean for the picture.

use vstd::prelude::*;

use crate::config::Config;
use crate::frame::Nv12;
use crate::orientation::{turn, Rotation};
use crate::precision::{ONE, SINGLE};
use crate::window::EDGE_GAP;

verus! {

/// A rotation of ninety degrees more shows the picture a quarter turn further clockwise,
/// and a full turn shows it as it was.
pub proof fn law_rotations_add_up(config: Config, further: Config, frame: Nv12)
    requires
        frame.valid(),
        config.orientation.rotation % 90 == 0,
        further.orientation.rotation == config.orientation.rotation + 90,
        !config.orientation.mirror_horizontal,
        !config.orientation.mirror_vertical,
        !further.orientation.mirror_horizontal,
        !further.orientation.mirror_vertical,
    ensures
        further.orientation_spec().oriented(frame) == turn(Rotation::Clockwise90).oriented(
            config.orientation_spec().oriented(frame),
        ),
        config.orientation.rotation % 360 == 0 ==> config.orientation_spec().oriented(frame)
            == frame,
{
    let quarter = turn(Rotation::Clockwise90);
    let half = turn(Rotation::Clockwise180);
    let back = turn(Rotation::Clockwise270);
    crate::orientation::law_upright_changes_nothing(frame);
    crate::orientation::law_two_quarter_turns_make_half_a_turn(frame);
    crate::orientation::law_four_quarter_turns_restore_the_frame(frame);
    crate::orientation::law_oriented_frames_are_valid(quarter, frame);
    let once = quarter.oriented(frame);
    crate::orientation::law_oriented_frames_are_valid(quarter, once);
    let twice = quarter.oriented(once);
    crate::orientation::law_oriented_frames_are_valid(quarter, twice);
    let thrice = quarter.oriented(twice);
    crate::orientation::law_clockwise_270_inverts_clockwise_90(thrice);
    assert(back.oriented(frame) == thrice);
    let angle = config.orientation.rotation as int % 360;
    let next = further.orientation.rotation as int % 360;
    assert(angle == 0 || angle == 90 || angle == 180 || angle == 270);
    assert(next == if angle == 270 {
        0
    } else {
        angle + 90
    });
    assert(config.orientation_spec() == turn(config.orientation_spec().rotation));
    assert(further.orientation_spec() == turn(further.orientation_spec().rotation));
    assert(turn(Rotation::Upright) == crate::orientation::upright());
}

/// The upper threshold of the edges ends up no lower than it was set and, as long as there
/// is room, above the lower one by about the gap that is kept.
pub proof fn law_the_upper_threshold_stays_above_the_lower(high: u64, low: u64)
    requires
        high <= ONE,
        low <= ONE,
    ensures
        ({
            let raised = crate::window::raised(high, low);
            &&& high <= raised <= ONE
            &&& raised == ONE || raised - low >= EDGE_GAP - ONE / 0x40_0000
            &&& high - low >= EDGE_GAP + ONE / 0x40_0000 ==> raised == high
        }),
{
    let single = SINGLE as int;
    crate::precision::lemma_nearest(low + EDGE_GAP, 1, single);
    crate::precision::lemma_nearest_error(low + EDGE_GAP, 1, single);
}

} // verus!
