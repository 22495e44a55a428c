//! The memory that one producer hands frames to its consumers through.
//!
//! A frame is written between two changes of a sequence number: the number is
//! odd while the frame is being written. A reader that finds the same even
//! number before and after has read a whole frame.

use vstd::prelude::*;

use crate::layout::{
    BgcamFrameHeader,
    BGCAM_FORMAT_BGRA,
    BGCAM_FORMAT_NV12,
    BGCAM_HEADER_SIZE,
    BGCAM_HEARTBEAT_TIMEOUT_MS,
    BGCAM_MAGIC,
    BGCAM_MAX_HEIGHT,
    BGCAM_MAX_WIDTH,
    BGCAM_PROTOCOL_VERSION,
    BGCAM_SEQLOCK_ATTEMPTS,
};
use crate::text::{push_decimal, push_hexadecimal};

verus! {

#[derive(Clone, Copy, Debug, PartialEq, Eq, Structural)]
pub enum IpcError {
    IncompatibleProtocol {
        magic: u32,
        version: u32,
        expected_magic: u32,
        expected_version: u32,
    },
    RegionTooSmall { actual: usize, required: usize },
    FrameTooLarge { size: usize, capacity: usize },
    BufferTooSmall { needed: usize, actual: usize },
    InvalidDescriptor { width: u32, height: u32 },
    Contended,
}

impl IpcError {
    /// The text that describes this error to a reader of the log.
    pub open spec fn text(self) -> Seq<char> {
        match self {
            IpcError::IncompatibleProtocol {
                magic,
                version,
                expected_magic,
                expected_version,
            } => {
                "shared memory has magic 0x"@ + crate::text::hexadecimal(magic as nat)
                    + " and protocol version "@ + crate::text::decimal(version as nat)
                    + ", expected 0x"@ + crate::text::hexadecimal(expected_magic as nat)
                    + " and "@ + crate::text::decimal(expected_version as nat)
            },
            IpcError::RegionTooSmall { actual, required } => {
                "mapped region of "@ + crate::text::decimal(actual as nat)
                    + " bytes is smaller than the required "@ + crate::text::decimal(
                    required as nat,
                )
            },
            IpcError::FrameTooLarge { size, capacity } => {
                "frame of "@ + crate::text::decimal(size as nat) + " bytes does not fit the "@
                    + crate::text::decimal(capacity as nat) + " byte capacity"@
            },
            IpcError::BufferTooSmall { needed, actual } => {
                "output buffer of "@ + crate::text::decimal(actual as nat)
                    + " bytes cannot hold a "@ + crate::text::decimal(needed as nat)
                    + " byte frame"@
            },
            IpcError::InvalidDescriptor { width, height } => {
                "frame size "@ + crate::text::decimal(width as nat) + "x"@ + crate::text::decimal(
                    height as nat,
                ) + " is invalid"@
            },
            IpcError::Contended =>
                "the writer kept updating the frame while it was being read"@,
        }
    }

    /// Describes the error in one line.
    pub fn message(&self) -> (message: String)
        ensures
            message@ == self.text(),
    {
        let mut message = String::new();
        match *self {
            IpcError::IncompatibleProtocol {
                magic,
                version,
                expected_magic,
                expected_version,
            } => {
                message.append("shared memory has magic 0x");
                push_hexadecimal(&mut message, magic as u64);
                message.append(" and protocol version ");
                push_decimal(&mut message, version as u64);
                message.append(", expected 0x");
                push_hexadecimal(&mut message, expected_magic as u64);
                message.append(" and ");
                push_decimal(&mut message, expected_version as u64);
            },
            IpcError::RegionTooSmall { actual, required } => {
                message.append("mapped region of ");
                push_decimal(&mut message, actual as u64);
                message.append(" bytes is smaller than the required ");
                push_decimal(&mut message, required as u64);
            },
            IpcError::FrameTooLarge { size, capacity } => {
                message.append("frame of ");
                push_decimal(&mut message, size as u64);
                message.append(" bytes does not fit the ");
                push_decimal(&mut message, capacity as u64);
                message.append(" byte capacity");
            },
            IpcError::BufferTooSmall { needed, actual } => {
                message.append("output buffer of ");
                push_decimal(&mut message, actual as u64);
                message.append(" bytes cannot hold a ");
                push_decimal(&mut message, needed as u64);
                message.append(" byte frame");
            },
            IpcError::InvalidDescriptor { width, height } => {
                message.append("frame size ");
                push_decimal(&mut message, width as u64);
                message.append("x");
                push_decimal(&mut message, height as u64);
                message.append(" is invalid");
            },
            IpcError::Contended => {
                message.append("the writer kept updating the frame while it was being read");
            },
        }
        proof {
            assert(message@ =~= self.text());
        }
        message
    }
}

#[derive(Clone, Copy, Debug, PartialEq, Eq, Hash, Structural)]
pub enum PixelFormat {
    Nv12,
    Bgra,
}

impl PixelFormat {
    pub open spec fn code_spec(self) -> u32 {
        match self {
            PixelFormat::Nv12 => BGCAM_FORMAT_NV12,
            PixelFormat::Bgra => BGCAM_FORMAT_BGRA,
        }
    }

    pub open spec fn of_code(code: u32) -> Option<PixelFormat> {
        if code == BGCAM_FORMAT_NV12 {
            Some(PixelFormat::Nv12)
        } else if code == BGCAM_FORMAT_BGRA {
            Some(PixelFormat::Bgra)
        } else {
            None
        }
    }

    /// The number of bytes of a frame.
    pub open spec fn bytes(self, width: int, height: int) -> int {
        match self {
            PixelFormat::Nv12 => width * height * 3 / 2,
            PixelFormat::Bgra => width * height * 4,
        }
    }

    pub fn code(self) -> (code: u32)
        ensures
            code == self.code_spec(),
    {
        match self {
            PixelFormat::Nv12 => BGCAM_FORMAT_NV12,
            PixelFormat::Bgra => BGCAM_FORMAT_BGRA,
        }
    }

    pub fn from_code(code: u32) -> (format: Option<Self>)
        ensures
            format == Self::of_code(code),
    {
        if code == BGCAM_FORMAT_NV12 {
            Some(PixelFormat::Nv12)
        } else if code == BGCAM_FORMAT_BGRA {
            Some(PixelFormat::Bgra)
        } else {
            None
        }
    }

    /// The number of bytes of a frame.
    pub fn frame_size(self, width: u32, height: u32) -> (size: usize)
        requires
            width * height * 4 <= usize::MAX,
        ensures
            size == self.bytes(width as int, height as int),
    {
        proof {
            crate::arith::lemma_product_nonnegative(width as int, height as int);
        }
        let pixels: usize = width as usize * height as usize;
        match self {
            PixelFormat::Nv12 => pixels * 3 / 2,
            PixelFormat::Bgra => pixels * 4,
        }
    }
}

/// The code of a format is read back as that format, and no other code is.
pub proof fn law_format_codes_round_trip(format: PixelFormat, code: u32)
    ensures
        PixelFormat::of_code(format.code_spec()) == Some(format),
        PixelFormat::of_code(code) == Some(format) ==> code == format.code_spec(),
{
}

#[derive(Clone, Copy, Debug, PartialEq, Eq, Hash, Structural)]
pub struct OutputMode {
    pub width: u32,
    pub height: u32,
    pub fps_numerator: u32,
    pub fps_denominator: u32,
}

#[derive(Clone, Copy, Debug, PartialEq, Eq, Structural)]
pub struct FrameInfo {
    pub width: u32,
    pub height: u32,
    pub format: PixelFormat,
    pub size: usize,
    pub frame_number: u64,
    pub qpc: i64,
}

#[derive(Clone, Copy, Debug, PartialEq, Eq)]
pub struct ConsumerState {
    pub active: bool,
    pub format: Option<PixelFormat>,
    pub count: u32,
}

/// What the header says of the last frame.
#[derive(Clone, Copy, Debug, PartialEq, Eq, Structural)]
pub struct FrameFields {
    pub width: u32,
    pub height: u32,
    pub code: u32,
    pub size: u32,
    pub frame_number: u64,
    pub qpc: i64,
}

/// Frames of this size can be exchanged.
pub open spec fn valid_size(width: u32, height: u32) -> bool {
    &&& 0 < width <= BGCAM_MAX_WIDTH
    &&& 0 < height <= BGCAM_MAX_HEIGHT
    &&& width % 2 == 0
    &&& height % 2 == 0
}

fn validate_size(width: u32, height: u32) -> (result: Result<(), IpcError>)
    ensures
        result == if valid_size(width, height) {
            Ok::<(), IpcError>(())
        } else {
            Err(IpcError::InvalidDescriptor { width, height })
        },
{
    let valid: bool = width > 0 && height > 0 && width % 2 == 0 && height % 2 == 0 && width
        <= BGCAM_MAX_WIDTH && height <= BGCAM_MAX_HEIGHT;
    if valid {
        Ok(())
    } else {
        Err(IpcError::InvalidDescriptor { width, height })
    }
}

proof fn lemma_frame_bytes(format: PixelFormat, width: u32, height: u32)
    requires
        valid_size(width, height),
    ensures
        0 < width * height <= 8_294_400,
        0 < format.bytes(width as int, height as int) <= 33_177_600,
{
    assert(0 < width * height <= 3840 * 2160) by (nonlinear_arith)
        requires
            0 < width <= 3840,
            0 < height <= 2160,
    ;
}

/// The number of bytes that a write takes, or why it is refused: the size of the
/// frame, the room for it and the bytes at hand are checked in this order.
pub open spec fn write_check(
    format: PixelFormat,
    width: u32,
    height: u32,
    capacity: int,
    provided: int,
) -> Result<int, IpcError> {
    let size = format.bytes(width as int, height as int);
    if !valid_size(width, height) {
        Err(IpcError::InvalidDescriptor { width, height })
    } else if size > capacity {
        Err(IpcError::FrameTooLarge { size: size as usize, capacity: capacity as usize })
    } else if provided < size {
        Err(IpcError::BufferTooSmall { needed: size as usize, actual: provided as usize })
    } else {
        Ok(size)
    }
}

/// Decides whether a frame may be written, and how many bytes it takes.
pub fn check_write(
    format: PixelFormat,
    width: u32,
    height: u32,
    capacity: usize,
    provided: usize,
) -> (result: Result<usize, IpcError>)
    ensures
        match write_check(format, width, height, capacity as int, provided as int) {
            Ok(size) => result matches Ok(bytes) && bytes == size,
            Err(error) => result == Err::<usize, IpcError>(error),
        },
{
    match validate_size(width, height) {
        Ok(()) => {},
        Err(error) => return Err(error),
    }
    proof {
        lemma_frame_bytes(format, width, height);
    }
    let size: usize = format.frame_size(width, height);
    if size > capacity {
        return Err(IpcError::FrameTooLarge { size, capacity });
    }
    if provided < size {
        return Err(IpcError::BufferTooSmall { needed: size, actual: provided });
    }
    Ok(size)
}

/// The sequence number while a frame is being written.
pub open spec fn writing_number(sequence: u64) -> u64 {
    if sequence % 2 == 0 {
        (sequence + 1) as u64
    } else {
        sequence
    }
}

/// The sequence number once a frame has been written.
pub open spec fn written_number(sequence: u64) -> u64 {
    if sequence >= u64::MAX - 1 {
        0
    } else {
        (writing_number(sequence) + 1) as u64
    }
}

/// The sequence number to set before a frame is written: the next odd one.
pub fn begin_write(sequence: u64) -> (writing: u64)
    ensures
        writing == writing_number(sequence),
        writing % 2 == 1,
{
    if sequence % 2 == 0 {
        sequence + 1
    } else {
        sequence
    }
}

/// The sequence number to set after a frame was written: the next even one.
pub fn end_write(writing: u64) -> (written: u64)
    requires
        writing % 2 == 1,
    ensures
        written == written_number(writing),
        written % 2 == 0,
{
    writing.wrapping_add(1)
}

/// What a reader does after looking at the sequence number.
#[derive(Clone, Copy, Debug, PartialEq, Eq, Structural)]
pub enum ReadStart {
    /// Nothing was written yet.
    Empty,
    /// A frame is being written.
    Busy,
    /// The frame may be copied.
    Ready,
}

/// Decides what to do with a sequence number.
pub fn start_read(sequence: u64) -> (start: ReadStart)
    ensures
        start == if sequence == 0 {
            ReadStart::Empty
        } else if sequence % 2 == 1 {
            ReadStart::Busy
        } else {
            ReadStart::Ready
        },
{
    if sequence == 0 {
        ReadStart::Empty
    } else if sequence % 2 == 1 {
        ReadStart::Busy
    } else {
        ReadStart::Ready
    }
}

/// The format of a frame whose fields agree with each other and fit the memory.
pub open spec fn consistent_format(fields: FrameFields, capacity: int) -> Option<PixelFormat> {
    match PixelFormat::of_code(fields.code) {
        Some(format) => if format.bytes(fields.width as int, fields.height as int) == fields.size
            && fields.size <= capacity {
            Some(format)
        } else {
            None
        },
        None => None,
    }
}

/// The format of a frame whose fields agree with each other and fit the memory.
pub fn frame_format(fields: &FrameFields, capacity: usize) -> (format: Option<PixelFormat>)
    ensures
        format == consistent_format(*fields, capacity as int),
{
    let format = match PixelFormat::from_code(fields.code) {
        Some(format) => format,
        None => return None,
    };
    let (w, h): (u128, u128) = (fields.width as u128, fields.height as u128);
    proof {
        assert(0 <= w * h <= 0xffff_ffff * 0xffff_ffff) by (nonlinear_arith)
            requires
                0 <= w <= 0xffff_ffff,
                0 <= h <= 0xffff_ffff,
        ;
    }
    let bytes: u128 = match format {
        PixelFormat::Nv12 => w * h * 3 / 2,
        PixelFormat::Bgra => w * h * 4,
    };
    if bytes == fields.size as u128 && fields.size as usize <= capacity {
        Some(format)
    } else {
        None
    }
}

/// How many bytes are to be copied before the sequence number is looked at
/// again: none where the fields disagree or the buffer is too small.
pub fn copy_len(fields: &FrameFields, capacity: usize, buffer: usize) -> (len: usize)
    ensures
        len == if consistent_format(*fields, capacity as int) is Some && fields.size <= buffer {
            fields.size as int
        } else {
            0
        },
{
    if frame_format(fields, capacity).is_some() && buffer >= fields.size as usize {
        fields.size as usize
    } else {
        0
    }
}

/// What came out of one attempt to read.
#[derive(Clone, Copy, Debug, PartialEq, Eq, Structural)]
pub enum ReadEnd {
    /// The frame changed in between.
    Retry,
    /// There is no usable frame.
    Empty,
    TooSmall { needed: usize },
    Frame(FrameInfo),
}

/// What an attempt gives, once the sequence number was looked at again.
pub open spec fn read_end(
    unchanged: bool,
    fields: FrameFields,
    capacity: int,
    buffer: int,
) -> ReadEnd {
    if !unchanged {
        ReadEnd::Retry
    } else {
        match consistent_format(fields, capacity) {
            None => ReadEnd::Empty,
            Some(format) => if buffer < fields.size {
                ReadEnd::TooSmall { needed: fields.size as usize }
            } else {
                ReadEnd::Frame(
                    FrameInfo {
                        width: fields.width,
                        height: fields.height,
                        format,
                        size: fields.size as usize,
                        frame_number: fields.frame_number,
                        qpc: fields.qpc,
                    },
                )
            },
        }
    }
}

/// Decides what an attempt to read gives.
pub fn finish_read(
    before: u64,
    after: u64,
    fields: &FrameFields,
    capacity: usize,
    buffer: usize,
) -> (end: ReadEnd)
    ensures
        end == read_end(before == after, *fields, capacity as int, buffer as int),
{
    if before != after {
        return ReadEnd::Retry;
    }
    match frame_format(fields, capacity) {
        None => ReadEnd::Empty,
        Some(format) => {
            if buffer < fields.size as usize {
                return ReadEnd::TooSmall { needed: fields.size as usize };
            }
            ReadEnd::Frame(
                FrameInfo {
                    width: fields.width,
                    height: fields.height,
                    format,
                    size: fields.size as usize,
                    frame_number: fields.frame_number,
                    qpc: fields.qpc,
                },
            )
        },
    }
}

/// A set of flags with its lowest bit set or cleared.
pub open spec fn with_flag(flags: u32, active: bool) -> u32 {
    (flags - flags % 2 + if active {
        1int
    } else {
        0
    }) as u32
}

/// Sets or clears the flag of an active producer or consumer.
pub fn set_flag(flags: u32, active: bool) -> (changed: u32)
    ensures
        changed == with_flag(flags, active),
        (changed % 2 == 1) == active,
{
    let rest: u32 = flags - flags % 2;
    if active {
        rest + 1
    } else {
        rest
    }
}

/// Whether a sign of life is recent: no older than the timeout.
pub open spec fn is_fresh(heartbeat: i64, now: i64, frequency: i64) -> bool {
    let ticks = if frequency > 1 {
        frequency as int
    } else {
        1
    };
    heartbeat != 0 && now - heartbeat <= ticks * BGCAM_HEARTBEAT_TIMEOUT_MS / 1000
}

/// Decides whether a sign of life is recent.
pub fn fresh(heartbeat: i64, now: i64, frequency: i64) -> (result: bool)
    ensures
        result == is_fresh(heartbeat, now, frequency),
{
    let ticks: i128 = if frequency > 1 {
        frequency as i128
    } else {
        1
    };
    let timeout: i128 = ticks * 2000 / 1000;
    heartbeat != 0 && now as i128 - heartbeat as i128 <= timeout
}

/// The number of consumers after one has left, and whether none is left.
pub fn consumer_leaves(count: u32) -> (left: (u32, bool))
    ensures
        left.0 == if count == 0 {
            0
        } else {
            count - 1
        },
        left.1 == (count <= 1),
{
    (count.saturating_sub(1), count <= 1)
}

/// The state of the consumers that header fields describe.
pub open spec fn consumers(h: BgcamFrameHeader, now: i64) -> ConsumerState {
    let active = h.consumer_flags % 2 == 1 && h.consumer_count > 0 && is_fresh(
        h.consumer_heartbeat_qpc,
        now,
        h.qpc_frequency,
    );
    ConsumerState {
        active,
        format: if active {
            PixelFormat::of_code(h.consumer_format)
        } else {
            None
        },
        count: h.consumer_count,
    }
}

/// Decides what the state of the consumers is.
pub fn judge_consumers(header: &BgcamFrameHeader, now_qpc: i64) -> (state: ConsumerState)
    ensures
        state == consumers(*header, now_qpc),
{
    let active: bool = header.consumer_flags % 2 == 1 && header.consumer_count > 0 && fresh(
        header.consumer_heartbeat_qpc,
        now_qpc,
        header.qpc_frequency,
    );
    let format = if active {
        PixelFormat::from_code(header.consumer_format)
    } else {
        None
    };
    ConsumerState { active, format, count: header.consumer_count }
}

/// Whether the producer that header fields describe is alive.
pub open spec fn producer_lives(h: BgcamFrameHeader, now: i64) -> bool {
    h.producer_flags % 2 == 1 && is_fresh(h.producer_heartbeat_qpc, now, h.qpc_frequency)
}

/// Decides whether the producer is alive.
pub fn judge_producer(header: &BgcamFrameHeader, now_qpc: i64) -> (alive: bool)
    ensures
        alive == producer_lives(*header, now_qpc),
{
    header.producer_flags % 2 == 1 && fresh(
        header.producer_heartbeat_qpc,
        now_qpc,
        header.qpc_frequency,
    )
}

/// The output mode that header fields describe, if it is one.
pub open spec fn mode_of(h: BgcamFrameHeader) -> Option<OutputMode> {
    if valid_size(h.output_width, h.output_height) && h.output_fps_numerator > 0
        && h.output_fps_denominator > 0 {
        Some(
            OutputMode {
                width: h.output_width,
                height: h.output_height,
                fps_numerator: h.output_fps_numerator,
                fps_denominator: h.output_fps_denominator,
            },
        )
    } else {
        None
    }
}

/// A number that is at least one.
pub open spec fn at_least_one(value: u32) -> u32 {
    if value == 0 {
        1
    } else {
        value
    }
}

/// A header with another output mode.
pub open spec fn with_mode(h: BgcamFrameHeader, mode: OutputMode) -> BgcamFrameHeader {
    BgcamFrameHeader {
        output_width: mode.width,
        output_height: mode.height,
        output_fps_numerator: at_least_one(mode.fps_numerator),
        output_fps_denominator: at_least_one(mode.fps_denominator),
        ..h
    }
}

/// What is announced of an output mode: a rate of at least one over at least one.
pub fn announced_mode(mode: OutputMode) -> (result: Result<OutputMode, IpcError>)
    ensures
        result == if valid_size(mode.width, mode.height) {
            Ok(
                OutputMode {
                    fps_numerator: at_least_one(mode.fps_numerator),
                    fps_denominator: at_least_one(mode.fps_denominator),
                    ..mode
                },
            )
        } else {
            Err::<OutputMode, IpcError>(
                IpcError::InvalidDescriptor { width: mode.width, height: mode.height },
            )
        },
{
    match validate_size(mode.width, mode.height) {
        Ok(()) => Ok(
            OutputMode {
                width: mode.width,
                height: mode.height,
                fps_numerator: one_or_more(mode.fps_numerator),
                fps_denominator: one_or_more(mode.fps_denominator),
            },
        ),
        Err(error) => Err(error),
    }
}

/// What is checked before memory of another process is used.
pub open spec fn protocol_check(h: BgcamFrameHeader) -> Result<(), IpcError> {
    if h.magic == BGCAM_MAGIC && h.version == BGCAM_PROTOCOL_VERSION {
        Ok(())
    } else {
        Err(
            IpcError::IncompatibleProtocol {
                magic: h.magic,
                version: h.version,
                expected_magic: BGCAM_MAGIC,
                expected_version: BGCAM_PROTOCOL_VERSION,
            },
        )
    }
}

/// A header as its producer sets it up. What is written of frames, modes and
/// consumers is left alone.
pub open spec fn set_up(h: BgcamFrameHeader, capacity: usize, frequency: i64) -> BgcamFrameHeader {
    BgcamFrameHeader {
        magic: BGCAM_MAGIC,
        version: BGCAM_PROTOCOL_VERSION,
        header_size: BGCAM_HEADER_SIZE,
        capacity: capacity as u32,
        qpc_frequency: frequency,
        ..h
    }
}

/// The fields of the frame that a header describes.
pub open spec fn fields_of(h: BgcamFrameHeader) -> FrameFields {
    FrameFields {
        width: h.frame_width,
        height: h.frame_height,
        code: h.frame_format,
        size: h.frame_size,
        frame_number: h.frame_number,
        qpc: h.frame_qpc,
    }
}

/// A header after a frame was written.
pub open spec fn with_frame(h: BgcamFrameHeader, fields: FrameFields) -> BgcamFrameHeader {
    BgcamFrameHeader {
        frame_width: fields.width,
        frame_height: fields.height,
        frame_format: fields.code,
        frame_size: fields.size,
        frame_number: fields.frame_number,
        frame_qpc: fields.qpc,
        sequence: written_number(h.sequence),
        producer_heartbeat_qpc: fields.qpc,
        ..h
    }
}

/// The bytes of several parts, one after the other.
pub open spec fn joined(parts: Seq<&[u8]>) -> Seq<u8>
    decreases parts.len(),
{
    if parts.len() == 0 {
        Seq::empty()
    } else {
        joined(parts.drop_last()) + parts.last()@
    }
}

/// Bytes with others written over their beginning.
pub open spec fn overwritten(data: Seq<u8>, bytes: Seq<u8>) -> Seq<u8> {
    Seq::new(
        data.len(),
        |i: int|
            if i < bytes.len() {
                bytes[i]
            } else {
                data[i]
            },
    )
}

/// What a reader of memory that nobody changes gets.
pub open spec fn read_result(
    h: BgcamFrameHeader,
    capacity: int,
    buffer: int,
) -> Result<Option<FrameInfo>, IpcError> {
    if h.sequence == 0 {
        Ok(None)
    } else if h.sequence % 2 == 1 {
        Err(IpcError::Contended)
    } else {
        match read_end(true, fields_of(h), capacity, buffer) {
            ReadEnd::Frame(info) => Ok(Some(info)),
            ReadEnd::TooSmall { needed } => Err(
                IpcError::BufferTooSmall { needed, actual: buffer as usize },
            ),
            _ => Ok(None),
        }
    }
}

/// The memory of one exchange: a header and room for a frame.
pub struct SharedRegion {
    header: BgcamFrameHeader,
    data: Vec<u8>,
}

impl SharedRegion {
    /// The header.
    pub closed spec fn header(&self) -> BgcamFrameHeader {
        self.header
    }

    /// The bytes behind the header.
    pub closed spec fn data(&self) -> Seq<u8> {
        self.data@
    }

    /// Takes over memory: a header and at least one byte behind it.
    pub fn from_memory(memory: Vec<u8>) -> (result: Result<Self, IpcError>)
        ensures
            match result {
                Ok(region) => {
                    &&& memory@.len() > BGCAM_HEADER_SIZE
                    &&& crate::layout::encodes(
                        memory@.take(BGCAM_HEADER_SIZE as int),
                        region.header(),
                    )
                    &&& region.data() == memory@.skip(BGCAM_HEADER_SIZE as int)
                },
                Err(error) => {
                    &&& memory@.len() <= BGCAM_HEADER_SIZE
                    &&& error == (IpcError::RegionTooSmall {
                        actual: memory@.len() as usize,
                        required: 129,
                    })
                },
            },
    {
        let required: usize = BGCAM_HEADER_SIZE as usize + 1;
        if memory.len() < required {
            return Err(IpcError::RegionTooSmall { actual: memory.len(), required });
        }
        let header = BgcamFrameHeader::from_bytes(memory.as_slice());
        let mut data: Vec<u8> = Vec::with_capacity(memory.len() - BGCAM_HEADER_SIZE as usize);
        let mut i: usize = BGCAM_HEADER_SIZE as usize;
        while i < memory.len()
            invariant
                BGCAM_HEADER_SIZE <= i <= memory@.len(),
                data@.len() == i - BGCAM_HEADER_SIZE,
                forall|j: int|
                    0 <= j < data@.len() ==> #[trigger] data@[j] == memory@[j
                        + BGCAM_HEADER_SIZE],
            decreases memory@.len() - i,
        {
            data.push(memory[i]);
            i = i + 1;
        }
        proof {
            assert(data@ =~= memory@.skip(BGCAM_HEADER_SIZE as int));
        }
        Ok(SharedRegion { header, data })
    }

    pub fn capacity(&self) -> (capacity: usize)
        ensures
            capacity == self.data().len(),
    {
        self.data.len()
    }

    /// Marks the memory as one of this protocol.
    pub fn initialize(&mut self, qpc_frequency: i64)
        ensures
            final(self).header() == set_up(
                old(self).header(),
                old(self).data().len() as usize,
                qpc_frequency,
            ),
            final(self).data() == old(self).data(),
    {
        self.header.magic = BGCAM_MAGIC;
        self.header.version = BGCAM_PROTOCOL_VERSION;
        self.header.header_size = BGCAM_HEADER_SIZE;
        self.header.capacity = #[verifier::truncate]
        (self.data.len() as u32);
        self.header.qpc_frequency = qpc_frequency;
    }

    /// Accepts memory of this protocol.
    pub fn validate(&self) -> (result: Result<(), IpcError>)
        ensures
            result == protocol_check(self.header()),
    {
        check_protocol(&self.header)
    }

    /// Announces an output mode.
    pub fn set_output_mode(&mut self, mode: OutputMode) -> (result: Result<(), IpcError>)
        ensures
            final(self).data() == old(self).data(),
            if valid_size(mode.width, mode.height) {
                result is Ok && final(self).header() == with_mode(old(self).header(), mode)
            } else {
                &&& result == Err::<(), IpcError>(
                    IpcError::InvalidDescriptor { width: mode.width, height: mode.height },
                )
                &&& final(self).header() == old(self).header()
            },
    {
        match announced_mode(mode) {
            Ok(announced) => {
                self.header.output_width = announced.width;
                self.header.output_height = announced.height;
                self.header.output_fps_numerator = announced.fps_numerator;
                self.header.output_fps_denominator = announced.fps_denominator;
                Ok(())
            },
            Err(error) => Err(error),
        }
    }

    /// The announced output mode, if there is one.
    pub fn output_mode(&self) -> (mode: Option<OutputMode>)
        ensures
            mode == mode_of(self.header()),
    {
        judge_output_mode(&self.header)
    }

    /// Writes a frame.
    pub fn write_frame(
        &mut self,
        format: PixelFormat,
        width: u32,
        height: u32,
        frame_number: u64,
        qpc: i64,
        pixels: &[u8],
    ) -> (result: Result<(), IpcError>)
        ensures
            match write_check(
                format,
                width,
                height,
                old(self).data().len() as int,
                pixels@.len() as int,
            ) {
                Ok(size) => {
                    &&& result is Ok
                    &&& final(self).header() == with_frame(
                        old(self).header(),
                        FrameFields {
                            width,
                            height,
                            code: format.code_spec(),
                            size: size as u32,
                            frame_number,
                            qpc,
                        },
                    )
                    &&& final(self).data() == overwritten(old(self).data(), pixels@.take(size))
                },
                Err(error) => {
                    &&& result == Err::<(), IpcError>(error)
                    &&& final(self).header() == old(self).header()
                    &&& final(self).data() == old(self).data()
                },
            },
    {
        proof {
            reveal_with_fuel(joined, 2);
            assert(seq![pixels].drop_last() =~= Seq::<&[u8]>::empty());
            assert(joined(seq![pixels]) =~= pixels@);
        }
        let parts: [&[u8]; 1] = [pixels];
        proof {
            assert(parts@ =~= seq![pixels]);
        }
        self.write_frame_parts(format, width, height, frame_number, qpc, parts.as_slice())
    }

    /// Writes a frame whose bytes stand in several places.
    pub fn write_frame_parts(
        &mut self,
        format: PixelFormat,
        width: u32,
        height: u32,
        frame_number: u64,
        qpc: i64,
        parts: &[&[u8]],
    ) -> (result: Result<(), IpcError>)
        ensures
            match write_check(
                format,
                width,
                height,
                old(self).data().len() as int,
                joined(parts@).len() as int,
            ) {
                Ok(size) => {
                    &&& result is Ok
                    &&& final(self).header() == with_frame(
                        old(self).header(),
                        FrameFields {
                            width,
                            height,
                            code: format.code_spec(),
                            size: size as u32,
                            frame_number,
                            qpc,
                        },
                    )
                    &&& final(self).data() == overwritten(
                        old(self).data(),
                        joined(parts@).take(size),
                    )
                },
                Err(error) => {
                    &&& result == Err::<(), IpcError>(error)
                    &&& final(self).header() == old(self).header()
                    &&& final(self).data() == old(self).data()
                },
            },
    {
        let provided: usize = total_len(parts);
        let size: usize = match check_write(format, width, height, self.data.len(), provided) {
            Ok(size) => size,
            Err(error) => return Err(error),
        };
        proof {
            lemma_frame_bytes(format, width, height);
        }
        let writing: u64 = begin_write(self.header.sequence);
        self.header.sequence = writing;
        self.copy_parts(parts, size);
        self.header.frame_width = width;
        self.header.frame_height = height;
        self.header.frame_format = format.code();
        self.header.frame_size = size as u32;
        self.header.frame_number = frame_number;
        self.header.frame_qpc = qpc;
        self.header.sequence = end_write(writing);
        self.header.producer_heartbeat_qpc = qpc;
        Ok(())
    }

    fn copy_parts(&mut self, parts: &[&[u8]], size: usize)
        requires
            size <= old(self).data@.len(),
            size <= joined(parts@).len(),
        ensures
            final(self).header == old(self).header,
            final(self).data@ == overwritten(old(self).data@, joined(parts@).take(size as int)),
    {
        let ghost before = self.data@;
        let mut offset: usize = 0;
        let mut part: usize = 0;
        proof {
            assert(parts@.take(0) =~= Seq::<&[u8]>::empty());
        }
        while part < parts.len()
            invariant
                part <= parts@.len(),
                self.header == old(self).header,
                before == old(self).data@,
                self.data@.len() == before.len(),
                size <= before.len(),
                size <= joined(parts@).len(),
                offset <= size,
                offset == if joined(parts@.take(part as int)).len() < size {
                    joined(parts@.take(part as int)).len() as int
                } else {
                    size as int
                },
                forall|i: int|
                    0 <= i < offset ==> #[trigger] self.data@[i] == joined(
                        parts@.take(part as int),
                    )[i],
                forall|i: int| offset <= i < before.len() ==> #[trigger] self.data@[i] == before[i],
            decreases parts@.len() - part,
        {
            let bytes: &[u8] = parts[part];
            let ghost done = joined(parts@.take(part as int));
            let ghost next = joined(parts@.take(part + 1));
            proof {
                assert(parts@.take(part + 1).drop_last() =~= parts@.take(part as int));
                assert(next == done + bytes@);
            }
            let room: usize = size - offset;
            let count: usize = if bytes.len() < room {
                bytes.len()
            } else {
                room
            };
            let start: usize = offset;
            let mut i: usize = 0;
            while i < count
                invariant
                    i <= count,
                    count <= bytes@.len(),
                    start + count <= size,
                    size <= before.len(),
                    self.header == old(self).header,
                    self.data@.len() == before.len(),
                    next == done + bytes@,
                    count > 0 ==> start == done.len(),
                    start <= done.len(),
                    forall|j: int|
                        0 <= j < start + i ==> #[trigger] self.data@[j] == next[j],
                    forall|j: int|
                        start + i <= j < before.len() ==> #[trigger] self.data@[j] == before[j],
                decreases count - i,
            {
                self.data[start + i] = bytes[i];
                i = i + 1;
            }
            offset = start + count;
            part = part + 1;
        }
        proof {
            assert(parts@.take(parts@.len() as int) =~= parts@);
            assert(self.data@ =~= overwritten(before, joined(parts@).take(size as int)));
        }
    }

    /// Reads the last frame into a buffer.
    pub fn read_frame(&self, out: &mut [u8]) -> (result: Result<Option<FrameInfo>, IpcError>)
        ensures
            result == read_result(
                self.header(),
                self.data().len() as int,
                old(out)@.len() as int,
            ),
            final(out)@ == match result {
                Ok(Some(info)) => overwritten(old(out)@, self.data().take(info.size as int)),
                _ => old(out)@,
            },
    {
        let capacity: usize = self.data.len();
        let buffer: usize = out.len();
        let fields = FrameFields {
            width: self.header.frame_width,
            height: self.header.frame_height,
            code: self.header.frame_format,
            size: self.header.frame_size,
            frame_number: self.header.frame_number,
            qpc: self.header.frame_qpc,
        };
        let mut attempt: u32 = 0;
        while attempt < BGCAM_SEQLOCK_ATTEMPTS
            invariant
                attempt <= BGCAM_SEQLOCK_ATTEMPTS,
                capacity == self.data@.len(),
                buffer == out@.len(),
                out@ == old(out)@,
                fields == fields_of(self.header),
                attempt > 0 ==> self.header.sequence % 2 == 1,
            decreases BGCAM_SEQLOCK_ATTEMPTS - attempt,
        {
            let before: u64 = self.header.sequence;
            match start_read(before) {
                ReadStart::Empty => return Ok(None),
                ReadStart::Busy => {},
                ReadStart::Ready => {
                    let len: usize = copy_len(&fields, capacity, buffer);
                    let mut i: usize = 0;
                    while i < len
                        invariant
                            i <= len,
                            len <= self.data@.len(),
                            len <= out@.len(),
                            out@.len() == old(out)@.len(),
                            forall|j: int| 0 <= j < i ==> #[trigger] out@[j] == self.data@[j],
                            forall|j: int|
                                i <= j < out@.len() ==> #[trigger] out@[j] == old(out)@[j],
                        decreases len - i,
                    {
                        out[i] = self.data[i];
                        i = i + 1;
                    }
                    proof {
                        assert(out@ =~= overwritten(old(out)@, self.data@.take(len as int)));
                        assert(len == 0 ==> out@ =~= old(out)@);
                    }
                    match finish_read(before, self.header.sequence, &fields, capacity, buffer) {
                        ReadEnd::Retry => {},
                        ReadEnd::Empty => return Ok(None),
                        ReadEnd::TooSmall { needed } => return Err(
                            IpcError::BufferTooSmall { needed, actual: buffer },
                        ),
                        ReadEnd::Frame(info) => return Ok(Some(info)),
                    }
                },
            }
            attempt = attempt + 1;
        }
        Err(IpcError::Contended)
    }

    /// Marks the producer as active or gone, and takes down a sign of life.
    pub fn set_producer_active(&mut self, active: bool, qpc: i64)
        ensures
            final(self).header() == (BgcamFrameHeader {
                producer_flags: with_flag(old(self).header().producer_flags, active),
                producer_heartbeat_qpc: qpc,
                ..old(self).header()
            }),
            final(self).data() == old(self).data(),
    {
        self.header.producer_flags = set_flag(self.header.producer_flags, active);
        self.header.producer_heartbeat_qpc = qpc;
    }

    pub fn producer_alive(&self, now_qpc: i64) -> (alive: bool)
        ensures
            alive == producer_lives(self.header(), now_qpc),
    {
        judge_producer(&self.header, now_qpc)
    }

    /// A consumer joins.
    pub fn consumer_started(&mut self, format: PixelFormat, qpc: i64)
        ensures
            final(self).header() == joined_consumer(old(self).header(), format, qpc),
            final(self).data() == old(self).data(),
    {
        self.header.consumer_format = format.code();
        self.header.consumer_count = self.header.consumer_count.wrapping_add(1);
        self.header.consumer_flags = set_flag(self.header.consumer_flags, true);
        self.consumer_heartbeat(qpc);
    }

    /// A consumer leaves.
    pub fn consumer_stopped(&mut self)
        ensures
            final(self).header() == left_consumer(old(self).header()),
            final(self).data() == old(self).data(),
    {
        let (count, last) = consumer_leaves(self.header.consumer_count);
        self.header.consumer_count = count;
        if last {
            self.header.consumer_flags = set_flag(self.header.consumer_flags, false);
        }
    }

    /// Takes down a consumer's sign of life.
    pub fn consumer_heartbeat(&mut self, qpc: i64)
        ensures
            final(self).header() == (BgcamFrameHeader {
                consumer_heartbeat_qpc: qpc,
                ..old(self).header()
            }),
            final(self).data() == old(self).data(),
    {
        self.header.consumer_heartbeat_qpc = qpc;
    }

    pub fn consumer_state(&self, now_qpc: i64) -> (state: ConsumerState)
        ensures
            state == consumers(self.header(), now_qpc),
    {
        judge_consumers(&self.header, now_qpc)
    }
}

/// A header after a consumer has joined.
pub open spec fn joined_consumer(
    h: BgcamFrameHeader,
    format: PixelFormat,
    qpc: i64,
) -> BgcamFrameHeader {
    BgcamFrameHeader {
        consumer_format: format.code_spec(),
        consumer_count: if h.consumer_count == u32::MAX {
            0
        } else {
            (h.consumer_count + 1) as u32
        },
        consumer_flags: with_flag(h.consumer_flags, true),
        consumer_heartbeat_qpc: qpc,
        ..h
    }
}

/// A header after a consumer has left.
pub open spec fn left_consumer(h: BgcamFrameHeader) -> BgcamFrameHeader {
    BgcamFrameHeader {
        consumer_count: if h.consumer_count == 0 {
            0
        } else {
            (h.consumer_count - 1) as u32
        },
        consumer_flags: if h.consumer_count <= 1 {
            with_flag(h.consumer_flags, false)
        } else {
            h.consumer_flags
        },
        ..h
    }
}

fn one_or_more(value: u32) -> (result: u32)
    ensures
        result == at_least_one(value),
{
    if value == 0 {
        1
    } else {
        value
    }
}

/// Accepts a header of this protocol.
pub fn check_protocol(header: &BgcamFrameHeader) -> (result: Result<(), IpcError>)
    ensures
        result == protocol_check(*header),
{
    if header.magic == BGCAM_MAGIC && header.version == BGCAM_PROTOCOL_VERSION {
        Ok(())
    } else {
        Err(
            IpcError::IncompatibleProtocol {
                magic: header.magic,
                version: header.version,
                expected_magic: BGCAM_MAGIC,
                expected_version: BGCAM_PROTOCOL_VERSION,
            },
        )
    }
}

/// The output mode that a header announces.
pub fn judge_output_mode(header: &BgcamFrameHeader) -> (mode: Option<OutputMode>)
    ensures
        mode == mode_of(*header),
{
    let valid: bool = validate_size(header.output_width, header.output_height).is_ok()
        && header.output_fps_numerator > 0 && header.output_fps_denominator > 0;
    if valid {
        Some(
            OutputMode {
                width: header.output_width,
                height: header.output_height,
                fps_numerator: header.output_fps_numerator,
                fps_denominator: header.output_fps_denominator,
            },
        )
    } else {
        None
    }
}

/// The number of bytes of several parts, or the greatest number where there are
/// more.
fn total_len(parts: &[&[u8]]) -> (total: usize)
    ensures
        total == if joined(parts@).len() < usize::MAX {
            joined(parts@).len() as int
        } else {
            usize::MAX as int
        },
{
    let mut total: usize = 0;
    proof {
        assert(parts@.take(0) =~= Seq::<&[u8]>::empty());
    }
    for i in 0..parts.len()
        invariant
            total == if joined(parts@.take(i as int)).len() < usize::MAX {
                joined(parts@.take(i as int)).len() as int
            } else {
                usize::MAX as int
            },
    {
        proof {
            assert(parts@.take(i + 1).drop_last() =~= parts@.take(i as int));
        }
        total = total.saturating_add(parts[i].len());
    }
    proof {
        assert(parts@.take(parts@.len() as int) =~= parts@);
    }
    total
}

/// A frame that was written is read back, byte for byte, with the number and the
/// time that it was written with. Left out is the one write after which the
/// sequence number starts over, so that the memory seems empty again.
pub proof fn law_written_frames_round_trip(
    h: BgcamFrameHeader,
    data: Seq<u8>,
    format: PixelFormat,
    width: u32,
    height: u32,
    frame_number: u64,
    qpc: i64,
    pixels: Seq<u8>,
    buffer: Seq<u8>,
)
    requires
        data.len() <= usize::MAX,
        write_check(format, width, height, data.len() as int, pixels.len() as int) is Ok,
        format.bytes(width as int, height as int) <= buffer.len() <= usize::MAX,
        h.sequence < u64::MAX - 1,
    ensures
        ({
            let size = format.bytes(width as int, height as int);
            let after = with_frame(
                h,
                FrameFields {
                    width,
                    height,
                    code: format.code_spec(),
                    size: size as u32,
                    frame_number,
                    qpc,
                },
            );
            let written = overwritten(data, pixels.take(size));
            &&& read_result(after, data.len() as int, buffer.len() as int) == Ok::<
                Option<FrameInfo>,
                IpcError,
            >(Some(FrameInfo { width, height, format, size: size as usize, frame_number, qpc }))
            &&& overwritten(buffer, written.take(size)).take(size) == pixels.take(size)
        }),
{
    lemma_frame_bytes(format, width, height);
    let size = format.bytes(width as int, height as int);
    let written = overwritten(data, pixels.take(size));
    assert(overwritten(buffer, written.take(size)).take(size) =~= pixels.take(size));
}

/// An output mode that was announced is read back; a rate of zero counts as one.
/// Frames that are written afterwards do not change it.
pub proof fn law_output_modes_round_trip(
    h: BgcamFrameHeader,
    mode: OutputMode,
    fields: FrameFields,
)
    requires
        valid_size(mode.width, mode.height),
    ensures
        mode_of(with_mode(h, mode)) == Some(
            OutputMode {
                fps_numerator: at_least_one(mode.fps_numerator),
                fps_denominator: at_least_one(mode.fps_denominator),
                ..mode
            },
        ),
        mode_of(with_frame(with_mode(h, mode), fields)) == mode_of(with_mode(h, mode)),
{
}

/// Consumers are active from the first that joins until the last has left, as
/// long as one gave a sign of life within the timeout.
pub proof fn law_consumers_are_active_while_one_is_left(
    h: BgcamFrameHeader,
    format: PixelFormat,
    qpc: i64,
    now: i64,
)
    requires
        h.consumer_count < u32::MAX,
        is_fresh(qpc, now, h.qpc_frequency),
    ensures
        consumers(joined_consumer(h, format, qpc), now) == (ConsumerState {
            active: true,
            format: Some(format),
            count: (h.consumer_count + 1) as u32,
        }),
        consumers(left_consumer(joined_consumer(h, format, qpc)), now).active == (
        h.consumer_count > 0),
        left_consumer(joined_consumer(h, format, qpc)).consumer_count == h.consumer_count,
{
}

/// A producer is alive from when it becomes active until it says that it is
/// gone, as long as it gave a sign of life within the timeout; writing a frame
/// is one.
pub proof fn law_producers_live_while_active(
    h: BgcamFrameHeader,
    qpc: i64,
    now: i64,
    active: bool,
    fields: FrameFields,
)
    ensures
        producer_lives(
            (BgcamFrameHeader {
                producer_flags: with_flag(h.producer_flags, active),
                producer_heartbeat_qpc: qpc,
                ..h
            }),
            now,
        ) == (active && is_fresh(qpc, now, h.qpc_frequency)),
        h.producer_flags % 2 == 1 ==> producer_lives(with_frame(h, fields), now) == is_fresh(
            fields.qpc,
            now,
            h.qpc_frequency,
        ),
{
}

/// Memory that was set up is accepted, and memory that never was is not.
pub proof fn law_only_memory_that_was_set_up_is_accepted(
    h: BgcamFrameHeader,
    capacity: usize,
    frequency: i64,
)
    ensures
        protocol_check(set_up(h, capacity, frequency)) is Ok,
        protocol_check(BgcamFrameHeader::zeroed()) is Err,
        mode_of(BgcamFrameHeader::zeroed()) is None,
        read_result(BgcamFrameHeader::zeroed(), capacity as int, capacity as int) == Ok::<
            Option<FrameInfo>,
            IpcError,
        >(None),
{
}

} // verus!
