//! Why readers never see half of one frame and half of another.

use vstd::prelude::*;

use crate::region::FrameFields;

verus! {

/// The part of the shared memory that a frame lives in.
#[verifier::ext_equal]
pub struct Memory {
    pub sequence: u64,
    pub fields: FrameFields,
    pub data: Seq<u8>,
}

/// A frame that a producer wants to hand over.
#[verifier::ext_equal]
pub struct Handover {
    pub fields: FrameFields,
    pub pixels: Seq<u8>,
}

impl Memory {
    /// The memory holds a frame.
    pub open spec fn holds(self, frame: Handover) -> bool {
        &&& self.fields == frame.fields
        &&& frame.pixels.len() <= self.data.len()
        &&& self.data.take(frame.pixels.len() as int) == frame.pixels
    }
}

/// One step of the only producer: it marks the memory as being written, changes
/// the frame while the mark is there, takes the mark away once the memory holds
/// a whole frame of those to be handed over, or does nothing.
pub open spec fn producer_step(frames: Set<Handover>, a: Memory, b: Memory) -> bool {
    ||| a.sequence % 2 == 0 && b == (Memory {
        sequence: crate::region::writing_number(a.sequence),
        ..a
    })
    ||| a.sequence % 2 == 1 && b.sequence == a.sequence
    ||| a.sequence % 2 == 1 && a.sequence < u64::MAX && b == (Memory {
        sequence: crate::region::written_number(a.sequence),
        ..a
    }) && exists|frame: Handover| frames.contains(frame) && #[trigger] a.holds(frame)
    ||| a == b
}

/// The memory over time, in as small steps as the producer takes.
pub open spec fn history(frames: Set<Handover>, states: Seq<Memory>) -> bool {
    &&& 0 < states.len()
    &&& states[0].sequence == 0
    &&& forall|i: int|
        #![trigger states[i + 1]]
        0 <= i < states.len() - 1 ==> producer_step(frames, states[i], states[i + 1])
}

/// The sequence number never goes back.
proof fn lemma_sequence_grows(frames: Set<Handover>, states: Seq<Memory>, first: int, last: int)
    requires
        history(frames, states),
        0 <= first <= last < states.len(),
    ensures
        states[first].sequence <= states[last].sequence,
    decreases last - first,
{
    if first < last {
        lemma_sequence_grows(frames, states, first, last - 1);
        assert(producer_step(frames, states[last - 1], states[last - 1 + 1]));
    }
}

/// Memory with an even sequence number holds a whole frame, or nothing was
/// written yet.
proof fn lemma_whole_at_rest(frames: Set<Handover>, states: Seq<Memory>, at: int)
    requires
        history(frames, states),
        0 <= at < states.len(),
    ensures
        states[at].sequence % 2 == 0 ==> states[at].sequence == 0 || exists|frame: Handover|
            frames.contains(frame) && #[trigger] states[at].holds(frame),
    decreases at,
{
    if at > 0 {
        lemma_whole_at_rest(frames, states, at - 1);
        let (a, b) = (states[at - 1], states[at - 1 + 1]);
        assert(producer_step(frames, a, b));
        if b.sequence % 2 == 0 && a.sequence % 2 == 1 {
            let frame = choose|frame: Handover| frames.contains(frame) && #[trigger] a.holds(frame);
            assert(b.holds(frame));
        } else if b.sequence % 2 == 0 && b.sequence != 0 {
            assert(a == b);
        }
    }
}

/// Where a reader finds the same even sequence number before and after, the
/// memory did not change in between, whatever the producer did meanwhile.
pub proof fn law_an_unchanged_sequence_means_unchanged_memory(
    frames: Set<Handover>,
    states: Seq<Memory>,
    before: int,
    between: int,
    after: int,
)
    requires
        history(frames, states),
        0 <= before <= between <= after < states.len(),
        states[before].sequence == states[after].sequence,
        states[before].sequence % 2 == 0,
    ensures
        states[between] == states[before],
    decreases between - before,
{
    if before < between {
        law_an_unchanged_sequence_means_unchanged_memory(
            frames,
            states,
            before,
            between - 1,
            after,
        );
        lemma_sequence_grows(frames, states, before, between);
        lemma_sequence_grows(frames, states, between, after);
        assert(producer_step(frames, states[between - 1], states[between - 1 + 1]));
    }
}

/// No torn frames: a reader that finds the same even sequence number before and
/// after, and not zero, has read the fields and every byte of one and the same
/// frame, whenever in between it looked at each of them.
pub proof fn law_readers_never_observe_torn_frames(
    frames: Set<Handover>,
    states: Seq<Memory>,
    before: int,
    after: int,
    fields_at: int,
    byte_at: Seq<int>,
)
    requires
        history(frames, states),
        0 <= before <= fields_at <= after < states.len(),
        states[before].sequence == states[after].sequence,
        states[before].sequence % 2 == 0,
        states[before].sequence != 0,
        forall|i: int| 0 <= i < byte_at.len() ==> before <= #[trigger] byte_at[i] <= after,
    ensures
        exists|frame: Handover|
            {
                &&& frames.contains(frame)
                &&& #[trigger] states[before].holds(frame)
                &&& states[fields_at].fields == frame.fields
                &&& forall|i: int|
                    0 <= i < byte_at.len() && i < frame.pixels.len()
                        ==> states[#[trigger] byte_at[i]].data[i] == frame.pixels[i]
            },
{
    lemma_whole_at_rest(frames, states, before);
    let frame = choose|frame: Handover|
        frames.contains(frame) && #[trigger] states[before].holds(frame);
    law_an_unchanged_sequence_means_unchanged_memory(frames, states, before, fields_at, after);
    assert forall|i: int| 0 <= i < byte_at.len() && i < frame.pixels.len() implies states[
    #[trigger] byte_at[i]].data[i] == frame.pixels[i] by {
        law_an_unchanged_sequence_means_unchanged_memory(
            frames,
            states,
            before,
            byte_at[i],
            after,
        );
        assert(states[before].data.take(frame.pixels.len() as int)[i] == frame.pixels[i]);
    }
}

/// Readers see frames in the order in which they were written: a later read
/// never finds a smaller sequence number.
pub proof fn law_readers_never_go_back(
    frames: Set<Handover>,
    states: Seq<Memory>,
    earlier: int,
    later: int,
)
    requires
        history(frames, states),
        0 <= earlier <= later < states.len(),
    ensures
        states[earlier].sequence <= states[later].sequence,
{
    lemma_sequence_grows(frames, states, earlier, later);
}

} // verus!
