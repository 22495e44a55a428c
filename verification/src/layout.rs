//! The layout of the memory that frames are exchanged through.

use vstd::prelude::*;

verus! {

pub const BGCAM_MAGIC: u32 = 0x4D41_4342;

pub const BGCAM_PROTOCOL_VERSION: u32 = 1;

pub const BGCAM_HEADER_SIZE: u32 = 128;

pub const BGCAM_MAX_WIDTH: u32 = 3840;

pub const BGCAM_MAX_HEIGHT: u32 = 2160;

pub const BGCAM_FRAME_CAPACITY: u32 = 33_177_600;

pub const BGCAM_SECTION_SIZE: u32 = 33_177_728;

pub const BGCAM_FORMAT_NONE: u32 = 0;

pub const BGCAM_FORMAT_NV12: u32 = 1;

pub const BGCAM_FORMAT_BGRA: u32 = 2;

pub const BGCAM_PRODUCER_ACTIVE: u32 = 1;

pub const BGCAM_CONSUMER_ACTIVE: u32 = 1;

pub const BGCAM_HEARTBEAT_TIMEOUT_MS: u32 = 2000;

pub const BGCAM_SEQLOCK_ATTEMPTS: u32 = 64;

pub const BGCAM_SECTION_NAME: &'static str = "bgcam-frames-v1";

pub const BGCAM_FRAME_READY_EVENT_NAME: &'static str = "bgcam-frame-ready-v1";

pub const BGCAM_CONSUMER_CHANGED_EVENT_NAME: &'static str = "bgcam-consumer-changed-v1";

pub const BGCAM_OBJECT_SDDL: &'static str = "D:P(A;;GA;;;SY)(A;;GA;;;LS)(A;;GA;;;IU)";

/// What stands in front of the pixels: who writes, who reads, and what the last
/// frame is.
#[derive(Debug, Default, Clone, Copy, PartialEq, Eq)]
pub struct BgcamFrameHeader {
    pub magic: u32,
    pub version: u32,
    pub header_size: u32,
    pub capacity: u32,
    pub output_width: u32,
    pub output_height: u32,
    pub output_fps_numerator: u32,
    pub output_fps_denominator: u32,
    pub frame_width: u32,
    pub frame_height: u32,
    pub frame_format: u32,
    pub frame_size: u32,
    pub producer_flags: u32,
    pub consumer_flags: u32,
    pub consumer_format: u32,
    pub consumer_count: u32,
    pub sequence: u64,
    pub frame_number: u64,
    pub frame_qpc: i64,
    pub producer_heartbeat_qpc: i64,
    pub consumer_heartbeat_qpc: i64,
    pub qpc_frequency: i64,
    pub reserved: [u32; 4],
}

/// The 32-bit number at a place, lowest byte first.
pub open spec fn word_at(bytes: Seq<u8>, at: int) -> int {
    bytes[at] + 0x100 * bytes[at + 1] + 0x1_0000 * bytes[at + 2] + 0x100_0000 * bytes[at + 3]
}

/// The 64-bit number at a place, lowest byte first.
pub open spec fn long_at(bytes: Seq<u8>, at: int) -> int {
    word_at(bytes, at) + 0x1_0000_0000 * word_at(bytes, at + 4)
}

/// Whether bytes are the encoding of a header: every field stands at its place,
/// lowest byte first, negative numbers as their two's complement.
pub open spec fn encodes(bytes: Seq<u8>, h: BgcamFrameHeader) -> bool {
    &&& bytes.len() == BGCAM_HEADER_SIZE
    &&& word_at(bytes, 0) == h.magic
    &&& word_at(bytes, 4) == h.version
    &&& word_at(bytes, 8) == h.header_size
    &&& word_at(bytes, 12) == h.capacity
    &&& word_at(bytes, 16) == h.output_width
    &&& word_at(bytes, 20) == h.output_height
    &&& word_at(bytes, 24) == h.output_fps_numerator
    &&& word_at(bytes, 28) == h.output_fps_denominator
    &&& word_at(bytes, 32) == h.frame_width
    &&& word_at(bytes, 36) == h.frame_height
    &&& word_at(bytes, 40) == h.frame_format
    &&& word_at(bytes, 44) == h.frame_size
    &&& word_at(bytes, 48) == h.producer_flags
    &&& word_at(bytes, 52) == h.consumer_flags
    &&& word_at(bytes, 56) == h.consumer_format
    &&& word_at(bytes, 60) == h.consumer_count
    &&& long_at(bytes, 64) == h.sequence
    &&& long_at(bytes, 72) == h.frame_number
    &&& long_at(bytes, 80) == h.frame_qpc as u64
    &&& long_at(bytes, 88) == h.producer_heartbeat_qpc as u64
    &&& long_at(bytes, 96) == h.consumer_heartbeat_qpc as u64
    &&& long_at(bytes, 104) == h.qpc_frequency as u64
    &&& word_at(bytes, 112) == h.reserved[0]
    &&& word_at(bytes, 116) == h.reserved[1]
    &&& word_at(bytes, 120) == h.reserved[2]
    &&& word_at(bytes, 124) == h.reserved[3]
}

fn push_word(bytes: &mut Vec<u8>, value: u32)
    ensures
        final(bytes)@.len() == old(bytes)@.len() + 4,
        forall|i: int|
            0 <= i < old(bytes)@.len() ==> #[trigger] final(bytes)@[i] == old(bytes)@[i],
        word_at(final(bytes)@, old(bytes)@.len() as int) == value,
{
    bytes.push((value % 0x100) as u8);
    bytes.push((value / 0x100 % 0x100) as u8);
    bytes.push((value / 0x1_0000 % 0x100) as u8);
    bytes.push((value / 0x100_0000) as u8);
}

fn push_long(bytes: &mut Vec<u8>, value: u64)
    ensures
        final(bytes)@.len() == old(bytes)@.len() + 8,
        forall|i: int|
            0 <= i < old(bytes)@.len() ==> #[trigger] final(bytes)@[i] == old(bytes)@[i],
        long_at(final(bytes)@, old(bytes)@.len() as int) == value,
{
    push_word(bytes, (value % 0x1_0000_0000) as u32);
    let ghost low = bytes@;
    push_word(bytes, (value / 0x1_0000_0000) as u32);
    proof {
        let at = old(bytes)@.len() as int;
        assert(word_at(bytes@, at) == word_at(low, at));
    }
}

fn read_word(bytes: &[u8], at: usize) -> (value: u32)
    requires
        at + 4 <= bytes@.len(),
    ensures
        value == word_at(bytes@, at as int),
{
    bytes[at] as u32 + 0x100 * bytes[at + 1] as u32 + 0x1_0000 * bytes[at + 2] as u32 + 0x100_0000
        * bytes[at + 3] as u32
}

fn read_long(bytes: &[u8], at: usize) -> (value: u64)
    requires
        at + 8 <= bytes@.len(),
    ensures
        value == long_at(bytes@, at as int),
{
    proof {
        assert(bytes.len() == bytes@.len());
    }
    read_word(bytes, at) as u64 + 0x1_0000_0000 * read_word(bytes, at + 4) as u64
}

fn to_bits(value: i64) -> (bits: u64)
    ensures
        bits == value as u64,
{
    #[verifier::truncate]
    (value as u64)
}

fn from_bits(bits: u64) -> (value: i64)
    ensures
        value as u64 == bits,
{
    proof {
        assert((bits as i64) as u64 == bits) by (bit_vector);
    }
    #[verifier::truncate]
    (bits as i64)
}

impl BgcamFrameHeader {
    /// The header of memory that was just made.
    pub open spec fn zeroed() -> BgcamFrameHeader {
        BgcamFrameHeader {
            magic: 0,
            version: 0,
            header_size: 0,
            capacity: 0,
            output_width: 0,
            output_height: 0,
            output_fps_numerator: 0,
            output_fps_denominator: 0,
            frame_width: 0,
            frame_height: 0,
            frame_format: 0,
            frame_size: 0,
            producer_flags: 0,
            consumer_flags: 0,
            consumer_format: 0,
            consumer_count: 0,
            sequence: 0,
            frame_number: 0,
            frame_qpc: 0,
            producer_heartbeat_qpc: 0,
            consumer_heartbeat_qpc: 0,
            qpc_frequency: 0,
            reserved: [0, 0, 0, 0],
        }
    }

    /// The bytes of a header.
    #[verifier::spinoff_prover]
    #[verifier::rlimit(100)]
    pub fn to_bytes(&self) -> (bytes: Vec<u8>)
        ensures
            encodes(bytes@, *self),
    {
        let mut bytes: Vec<u8> = Vec::with_capacity(128);
        push_word(&mut bytes, self.magic);
        push_word(&mut bytes, self.version);
        push_word(&mut bytes, self.header_size);
        push_word(&mut bytes, self.capacity);
        push_word(&mut bytes, self.output_width);
        push_word(&mut bytes, self.output_height);
        push_word(&mut bytes, self.output_fps_numerator);
        push_word(&mut bytes, self.output_fps_denominator);
        push_word(&mut bytes, self.frame_width);
        push_word(&mut bytes, self.frame_height);
        push_word(&mut bytes, self.frame_format);
        push_word(&mut bytes, self.frame_size);
        push_word(&mut bytes, self.producer_flags);
        push_word(&mut bytes, self.consumer_flags);
        push_word(&mut bytes, self.consumer_format);
        push_word(&mut bytes, self.consumer_count);
        push_long(&mut bytes, self.sequence);
        push_long(&mut bytes, self.frame_number);
        push_long(&mut bytes, to_bits(self.frame_qpc));
        push_long(&mut bytes, to_bits(self.producer_heartbeat_qpc));
        push_long(&mut bytes, to_bits(self.consumer_heartbeat_qpc));
        push_long(&mut bytes, to_bits(self.qpc_frequency));
        push_word(&mut bytes, self.reserved[0]);
        push_word(&mut bytes, self.reserved[1]);
        push_word(&mut bytes, self.reserved[2]);
        push_word(&mut bytes, self.reserved[3]);
        bytes
    }

    /// The header that bytes encode.
    pub fn from_bytes(bytes: &[u8]) -> (header: Self)
        requires
            bytes@.len() >= BGCAM_HEADER_SIZE,
        ensures
            encodes(bytes@.take(BGCAM_HEADER_SIZE as int), header),
    {
        let header = BgcamFrameHeader {
            magic: read_word(bytes, 0),
            version: read_word(bytes, 4),
            header_size: read_word(bytes, 8),
            capacity: read_word(bytes, 12),
            output_width: read_word(bytes, 16),
            output_height: read_word(bytes, 20),
            output_fps_numerator: read_word(bytes, 24),
            output_fps_denominator: read_word(bytes, 28),
            frame_width: read_word(bytes, 32),
            frame_height: read_word(bytes, 36),
            frame_format: read_word(bytes, 40),
            frame_size: read_word(bytes, 44),
            producer_flags: read_word(bytes, 48),
            consumer_flags: read_word(bytes, 52),
            consumer_format: read_word(bytes, 56),
            consumer_count: read_word(bytes, 60),
            sequence: read_long(bytes, 64),
            frame_number: read_long(bytes, 72),
            frame_qpc: from_bits(read_long(bytes, 80)),
            producer_heartbeat_qpc: from_bits(read_long(bytes, 88)),
            consumer_heartbeat_qpc: from_bits(read_long(bytes, 96)),
            qpc_frequency: from_bits(read_long(bytes, 104)),
            reserved: [
                read_word(bytes, 112),
                read_word(bytes, 116),
                read_word(bytes, 120),
                read_word(bytes, 124),
            ],
        };
        header
    }
}

/// Bytes encode at most one header, so a header that is written and read again
/// is the same.
pub proof fn law_headers_round_trip(bytes: Seq<u8>, first: BgcamFrameHeader, second: BgcamFrameHeader)
    requires
        encodes(bytes, first),
        encodes(bytes, second),
    ensures
        first == second,
{
    lemma_bits_are_injective(first.frame_qpc, second.frame_qpc);
    lemma_bits_are_injective(first.producer_heartbeat_qpc, second.producer_heartbeat_qpc);
    lemma_bits_are_injective(first.consumer_heartbeat_qpc, second.consumer_heartbeat_qpc);
    lemma_bits_are_injective(first.qpc_frequency, second.qpc_frequency);
    assert(first.reserved@ =~= second.reserved@);
    assert(first.reserved == second.reserved);
}

/// A header has at most one encoding: no byte of it is left open.
pub proof fn law_encodings_are_unique(first: Seq<u8>, second: Seq<u8>, header: BgcamFrameHeader)
    requires
        encodes(first, header),
        encodes(second, header),
    ensures
        first == second,
{
    assert forall|i: int| 0 <= i < 128 implies first[i] == second[i] by {
        let at = i / 4 * 4;
        lemma_words_equal(first, second, header, i / 4);
        lemma_word_bytes(first, second, at);
    }
    assert(first =~= second);
}

proof fn lemma_bits_are_injective(a: i64, b: i64)
    by (bit_vector)
    ensures
        a as u64 == b as u64 ==> a == b,
{
}

proof fn lemma_word_bytes(first: Seq<u8>, second: Seq<u8>, at: int)
    requires
        word_at(first, at) == word_at(second, at),
    ensures
        first[at] == second[at],
        first[at + 1] == second[at + 1],
        first[at + 2] == second[at + 2],
        first[at + 3] == second[at + 3],
{
    let (a0, a1, a2, a3) = (
        first[at] as int,
        first[at + 1] as int,
        first[at + 2] as int,
        first[at + 3] as int,
    );
    let (b0, b1, b2, b3) = (
        second[at] as int,
        second[at + 1] as int,
        second[at + 2] as int,
        second[at + 3] as int,
    );
    lemma_digits(a0, a1 + 0x100 * a2 + 0x1_0000 * a3, b0, b1 + 0x100 * b2 + 0x1_0000 * b3);
    lemma_digits(a1, a2 + 0x100 * a3, b1, b2 + 0x100 * b3);
    lemma_digits(a2, a3, b2, b3);
}

proof fn lemma_digits(low: int, high: int, other_low: int, other_high: int)
    requires
        0 <= low < 0x100,
        0 <= other_low < 0x100,
        low + 0x100 * high == other_low + 0x100 * other_high,
    ensures
        low == other_low,
        high == other_high,
{
}

#[verifier::spinoff_prover]
#[verifier::rlimit(60)]
proof fn lemma_words_equal(
    first: Seq<u8>,
    second: Seq<u8>,
    header: BgcamFrameHeader,
    word: int,
)
    requires
        encodes(first, header),
        encodes(second, header),
        0 <= word < 32,
    ensures
        word_at(first, word * 4) == word_at(second, word * 4),
{
    if word == 0 {
        assert(word_at(first, 0) == word_at(second, 0));
    } else if word == 1 {
        assert(word_at(first, 4) == word_at(second, 4));
    } else if word == 2 {
        assert(word_at(first, 8) == word_at(second, 8));
    } else if word == 3 {
        assert(word_at(first, 12) == word_at(second, 12));
    } else if word == 4 {
        assert(word_at(first, 16) == word_at(second, 16));
    } else if word == 5 {
        assert(word_at(first, 20) == word_at(second, 20));
    } else if word == 6 {
        assert(word_at(first, 24) == word_at(second, 24));
    } else if word == 7 {
        assert(word_at(first, 28) == word_at(second, 28));
    } else if word == 8 {
        assert(word_at(first, 32) == word_at(second, 32));
    } else if word == 9 {
        assert(word_at(first, 36) == word_at(second, 36));
    } else if word == 10 {
        assert(word_at(first, 40) == word_at(second, 40));
    } else if word == 11 {
        assert(word_at(first, 44) == word_at(second, 44));
    } else if word == 12 {
        assert(word_at(first, 48) == word_at(second, 48));
    } else if word == 13 {
        assert(word_at(first, 52) == word_at(second, 52));
    } else if word == 14 {
        assert(word_at(first, 56) == word_at(second, 56));
    } else if word == 15 {
        assert(word_at(first, 60) == word_at(second, 60));
    } else if word == 28 {
        assert(word_at(first, 112) == word_at(second, 112));
    } else if word == 29 {
        assert(word_at(first, 116) == word_at(second, 116));
    } else if word == 30 {
        assert(word_at(first, 120) == word_at(second, 120));
    } else if word == 31 {
        assert(word_at(first, 124) == word_at(second, 124));
    } else if word == 16 || word == 17 {
        lemma_long_words(first, second, 64);
    } else if word == 18 || word == 19 {
        lemma_long_words(first, second, 72);
    } else if word == 20 || word == 21 {
        lemma_long_words(first, second, 80);
    } else if word == 22 || word == 23 {
        lemma_long_words(first, second, 88);
    } else if word == 24 || word == 25 {
        lemma_long_words(first, second, 96);
    } else if word == 26 || word == 27 {
        lemma_long_words(first, second, 104);
    }
}

proof fn lemma_long_words(first: Seq<u8>, second: Seq<u8>, at: int)
    requires
        long_at(first, at) == long_at(second, at),
    ensures
        word_at(first, at) == word_at(second, at),
        word_at(first, at + 4) == word_at(second, at + 4),
{
    lemma_word_range(first, at);
    lemma_word_range(second, at);
    lemma_halves(
        word_at(first, at),
        word_at(first, at + 4),
        word_at(second, at),
        word_at(second, at + 4),
    );
}

proof fn lemma_word_range(bytes: Seq<u8>, at: int)
    ensures
        0 <= word_at(bytes, at) < 0x1_0000_0000,
{
}

proof fn lemma_halves(low: int, high: int, other_low: int, other_high: int)
    requires
        0 <= low < 0x1_0000_0000,
        0 <= other_low < 0x1_0000_0000,
        low + 0x1_0000_0000 * high == other_low + 0x1_0000_0000 * other_high,
    ensures
        low == other_low,
        high == other_high,
{
}

} // verus!
