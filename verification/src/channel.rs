//! The two ends of a frame exchange: what they are called, and what each does.

use vstd::prelude::*;

use crate::layout::{
    BGCAM_CONSUMER_CHANGED_EVENT_NAME,
    BGCAM_FRAME_READY_EVENT_NAME,
    BGCAM_SECTION_NAME,
};
use crate::region::{IpcError, PixelFormat, SharedRegion};
use crate::text::push_decimal;

verus! {

/// The names of the objects that both ends of an exchange open.
#[derive(Debug, PartialEq, Eq)]
pub struct ObjectNames {
    pub section: String,
    pub frame_ready: String,
    pub consumer_changed: String,
}

fn prefixed(prefix: &str, name: &str) -> (text: String)
    ensures
        text@ == prefix@ + name@,
{
    let mut text = String::new();
    text.append(prefix);
    text.append(name);
    proof {
        assert(text@ =~= prefix@ + name@);
    }
    text
}

impl ObjectNames {
    /// The names all start with a prefix.
    pub open spec fn named(self, prefix: Seq<char>) -> bool {
        &&& self.section@ == prefix + BGCAM_SECTION_NAME@
        &&& self.frame_ready@ == prefix + BGCAM_FRAME_READY_EVENT_NAME@
        &&& self.consumer_changed@ == prefix + BGCAM_CONSUMER_CHANGED_EVENT_NAME@
    }

    pub fn with_prefix(prefix: &str) -> (names: Self)
        ensures
            names.named(prefix@),
    {
        ObjectNames {
            section: prefixed(prefix, BGCAM_SECTION_NAME),
            frame_ready: prefixed(prefix, BGCAM_FRAME_READY_EVENT_NAME),
            consumer_changed: prefixed(prefix, BGCAM_CONSUMER_CHANGED_EVENT_NAME),
        }
    }

    /// The names inside the session of the caller.
    pub fn local() -> (names: Self)
        ensures
            names.named("Local\\"@),
    {
        Self::with_prefix("Local\\")
    }

    /// The names inside another session.
    pub fn for_session(session_id: u32) -> (names: Self)
        ensures
            names.named("Session\\"@ + crate::text::decimal(session_id as nat) + "\\"@),
    {
        let mut prefix = String::new();
        prefix.append("Session\\");
        push_decimal(&mut prefix, session_id as u64);
        prefix.append("\\");
        proof {
            assert(prefix@ =~= "Session\\"@ + crate::text::decimal(session_id as nat) + "\\"@);
        }
        Self::with_prefix(prefix.as_str())
    }
}

/// The end that hands frames over.
#[derive(Clone, Copy, Debug, PartialEq, Eq, Structural)]
pub struct Producer {
    /// The number of the last frame.
    pub frame_number: u64,
}

impl Producer {
    /// Takes over memory: sets it up if it is new, else accepts it only if it is
    /// of this protocol.
    pub fn attach(region: &mut SharedRegion, existed: bool, qpc_frequency: i64) -> (result: Result<
        Self,
        IpcError,
    >)
        ensures
            final(region).data() == old(region).data(),
            if existed {
                &&& final(region).header() == old(region).header()
                &&& match crate::region::protocol_check(old(region).header()) {
                    Ok(()) => result == Ok::<Producer, IpcError>(Producer { frame_number: 0 }),
                    Err(error) => result == Err::<Producer, IpcError>(error),
                }
            } else {
                &&& final(region).header() == crate::region::set_up(
                    old(region).header(),
                    old(region).data().len() as usize,
                    qpc_frequency,
                )
                &&& result == Ok::<Producer, IpcError>(Producer { frame_number: 0 })
            },
    {
        if existed {
            match region.validate() {
                Ok(()) => {},
                Err(error) => return Err(error),
            }
        } else {
            region.initialize(qpc_frequency);
        }
        Ok(Producer { frame_number: 0 })
    }

    /// The number of the next frame. A refused frame uses up its number too.
    pub fn next_frame_number(&mut self) -> (number: u64)
        requires
            old(self).frame_number < u64::MAX,
        ensures
            number == old(self).frame_number + 1,
            final(self).frame_number == number,
    {
        self.frame_number = self.frame_number + 1;
        self.frame_number
    }

    /// Hands over a frame whose bytes stand in several places, under the next
    /// number, and gives a sign of life.
    pub fn publish_parts(
        &mut self,
        region: &mut SharedRegion,
        format: PixelFormat,
        width: u32,
        height: u32,
        parts: &[&[u8]],
        qpc: i64,
    ) -> (result: Result<(), IpcError>)
        requires
            old(self).frame_number < u64::MAX,
        ensures
            final(self).frame_number == old(self).frame_number + 1,
            match crate::region::write_check(
                format,
                width,
                height,
                old(region).data().len() as int,
                crate::region::joined(parts@).len() as int,
            ) {
                Ok(size) => {
                    let written = crate::region::with_frame(
                        old(region).header(),
                        crate::region::FrameFields {
                            width,
                            height,
                            code: format.code_spec(),
                            size: size as u32,
                            frame_number: final(self).frame_number,
                            qpc,
                        },
                    );
                    &&& result is Ok
                    &&& final(region).header() == (crate::layout::BgcamFrameHeader {
                        producer_flags: crate::region::with_flag(written.producer_flags, true),
                        producer_heartbeat_qpc: qpc,
                        ..written
                    })
                    &&& final(region).data() == crate::region::overwritten(
                        old(region).data(),
                        crate::region::joined(parts@).take(size),
                    )
                },
                Err(error) => {
                    &&& result == Err::<(), IpcError>(error)
                    &&& final(region).header() == old(region).header()
                    &&& final(region).data() == old(region).data()
                },
            },
    {
        let number: u64 = self.next_frame_number();
        match region.write_frame_parts(format, width, height, number, qpc, parts) {
            Ok(()) => {},
            Err(error) => return Err(error),
        }
        region.set_producer_active(true, qpc);
        Ok(())
    }
}

/// The end that reads frames.
#[derive(Clone, Copy, Debug, PartialEq, Eq, Structural)]
pub struct Reader {
    /// Whether it counts as one of the consumers.
    pub consuming: bool,
}

impl Reader {
    /// Opens memory of this protocol.
    pub fn attach(region: &SharedRegion) -> (result: Result<Self, IpcError>)
        ensures
            match crate::region::protocol_check(region.header()) {
                Ok(()) => result == Ok::<Reader, IpcError>(Reader { consuming: false }),
                Err(error) => result == Err::<Reader, IpcError>(error),
            },
    {
        match region.validate() {
            Ok(()) => Ok(Reader { consuming: false }),
            Err(error) => Err(error),
        }
    }

    /// Joins the consumers, once.
    pub fn start(&mut self, region: &mut SharedRegion, format: PixelFormat, qpc: i64)
        ensures
            final(self).consuming,
            final(region).header() == if old(self).consuming {
                old(region).header()
            } else {
                crate::region::joined_consumer(old(region).header(), format, qpc)
            },
            final(region).data() == old(region).data(),
    {
        if !self.consuming {
            region.consumer_started(format, qpc);
            self.consuming = true;
        }
    }

    /// Leaves the consumers, once. Says whether anything changed.
    pub fn stop(&mut self, region: &mut SharedRegion) -> (changed: bool)
        ensures
            !final(self).consuming,
            changed == old(self).consuming,
            final(region).header() == if old(self).consuming {
                crate::region::left_consumer(old(region).header())
            } else {
                old(region).header()
            },
            final(region).data() == old(region).data(),
    {
        if self.consuming {
            region.consumer_stopped();
            self.consuming = false;
            true
        } else {
            false
        }
    }
}

} // verus!
