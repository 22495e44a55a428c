use chromafree::channel::{ObjectNames, Producer, Reader};
use chromafree::layout::{BgcamFrameHeader, BGCAM_HEADER_SIZE, BGCAM_PROTOCOL_VERSION};
use chromafree::region::{IpcError, OutputMode, PixelFormat, SharedRegion};

fn region(capacity: usize) -> SharedRegion {
    let words = (BGCAM_HEADER_SIZE as usize + capacity + 7) / 8;
    let mut region = SharedRegion::from_memory(vec![0u8; words * 8]).unwrap();
    region.initialize(1_000_000);
    region
}

#[test]
fn empty_region_has_no_frame() {
    let region = region(64);
    region.validate().unwrap();
    assert_eq!(region.read_frame(&mut [0; 64]).unwrap(), None);
    assert_eq!(region.output_mode(), None);
}

#[test]
fn written_frame_round_trips() {
    let mut region = region(64);
    let pixels: Vec<u8> = (0..24).collect();
    region.write_frame(PixelFormat::Nv12, 4, 4, 7, 1234, &pixels).unwrap();
    let mut out = [0u8; 64];
    let info = region.read_frame(&mut out).unwrap().unwrap();
    assert_eq!(info.size, 24);
    assert_eq!(
        (info.width, info.height, info.format, info.frame_number, info.qpc),
        (4, 4, PixelFormat::Nv12, 7, 1234)
    );
    assert_eq!(&out[..24], &pixels[..]);
}

#[test]
fn oversized_frames_and_small_buffers_are_rejected() {
    let mut region = region(16);
    assert!(matches!(
        region.write_frame(PixelFormat::Bgra, 4, 4, 0, 0, &[0; 64]),
        Err(IpcError::FrameTooLarge { .. })
    ));
    region.write_frame(PixelFormat::Nv12, 2, 2, 1, 0, &[1; 6]).unwrap();
    assert!(matches!(
        region.read_frame(&mut [0; 4]),
        Err(IpcError::BufferTooSmall { needed: 6, .. })
    ));
    assert!(matches!(
        region.write_frame(PixelFormat::Nv12, 3, 2, 0, 0, &[0; 9]),
        Err(IpcError::InvalidDescriptor { .. })
    ));
}

#[test]
fn output_mode_is_stored_separately_from_frames() {
    let mut region = region(64);
    let mode = OutputMode {
        width: 1280,
        height: 720,
        fps_numerator: 30,
        fps_denominator: 1,
    };
    region.set_output_mode(mode).unwrap();
    assert_eq!(region.output_mode(), Some(mode));
}

#[test]
fn consumer_and_producer_liveness_follow_flags_and_heartbeats() {
    let mut region = region(64);
    assert!(!region.consumer_state(0).active);
    region.consumer_started(PixelFormat::Bgra, 5_000_000);
    region.consumer_started(PixelFormat::Nv12, 5_000_000);
    let state = region.consumer_state(5_500_000);
    assert!(state.active);
    assert_eq!((state.count, state.format), (2, Some(PixelFormat::Nv12)));
    assert!(!region.consumer_state(8_000_000).active);
    region.consumer_stopped();
    assert!(region.consumer_state(5_500_000).active);
    region.consumer_stopped();
    assert!(!region.consumer_state(5_500_000).active);
    region.consumer_stopped();
    assert_eq!(region.consumer_state(5_500_000).count, 0);

    region.set_producer_active(true, 10_000_000);
    assert!(region.producer_alive(11_000_000));
    assert!(!region.producer_alive(13_000_000));
    region.set_producer_active(false, 11_000_000);
    assert!(!region.producer_alive(11_000_000));
}

#[test]
fn incompatible_memory_is_detected() {
    let region = SharedRegion::from_memory(vec![0u8; 256]).unwrap();
    assert!(matches!(region.validate(), Err(IpcError::IncompatibleProtocol { .. })));
}

/// Where a header holds something in its bytes.
fn offset(header: BgcamFrameHeader) -> usize {
    let bytes = header.to_bytes();
    bytes.iter().position(|&b| b != 0).unwrap()
}

#[test]
fn header_layout_is_frozen() {
    let empty = BgcamFrameHeader::default();
    assert_eq!(empty.to_bytes().len(), BGCAM_HEADER_SIZE as usize);
    let mut reserved = empty;
    reserved.reserved[0] = 1;
    let offsets = [
        (offset(BgcamFrameHeader { magic: 1, ..empty }), 0),
        (offset(BgcamFrameHeader { version: 1, ..empty }), 4),
        (offset(BgcamFrameHeader { header_size: 1, ..empty }), 8),
        (offset(BgcamFrameHeader { capacity: 1, ..empty }), 12),
        (offset(BgcamFrameHeader { output_width: 1, ..empty }), 16),
        (offset(BgcamFrameHeader { output_height: 1, ..empty }), 20),
        (offset(BgcamFrameHeader { output_fps_numerator: 1, ..empty }), 24),
        (offset(BgcamFrameHeader { output_fps_denominator: 1, ..empty }), 28),
        (offset(BgcamFrameHeader { frame_width: 1, ..empty }), 32),
        (offset(BgcamFrameHeader { frame_height: 1, ..empty }), 36),
        (offset(BgcamFrameHeader { frame_format: 1, ..empty }), 40),
        (offset(BgcamFrameHeader { frame_size: 1, ..empty }), 44),
        (offset(BgcamFrameHeader { producer_flags: 1, ..empty }), 48),
        (offset(BgcamFrameHeader { consumer_flags: 1, ..empty }), 52),
        (offset(BgcamFrameHeader { consumer_format: 1, ..empty }), 56),
        (offset(BgcamFrameHeader { consumer_count: 1, ..empty }), 60),
        (offset(BgcamFrameHeader { sequence: 1, ..empty }), 64),
        (offset(BgcamFrameHeader { frame_number: 1, ..empty }), 72),
        (offset(BgcamFrameHeader { frame_qpc: 1, ..empty }), 80),
        (offset(BgcamFrameHeader { producer_heartbeat_qpc: 1, ..empty }), 88),
        (offset(BgcamFrameHeader { consumer_heartbeat_qpc: 1, ..empty }), 96),
        (offset(BgcamFrameHeader { qpc_frequency: 1, ..empty }), 104),
        (offset(reserved), 112),
    ];
    for (index, (actual, expected)) in offsets.iter().enumerate() {
        assert_eq!(actual, expected, "field #{index}");
    }
    assert_eq!(
        BGCAM_PROTOCOL_VERSION, 1,
        "bump the protocol version together with any layout change"
    );
}

#[test]
fn headers_survive_their_encoding() {
    let header = BgcamFrameHeader {
        magic: 0x1234_5678,
        frame_qpc: -5,
        sequence: u64::MAX - 3,
        reserved: [9, 8, 7, 6],
        ..BgcamFrameHeader::default()
    };
    assert_eq!(BgcamFrameHeader::from_bytes(&header.to_bytes()), header);
}

#[test]
fn reader_without_producer_fails_to_open() {
    let unset = SharedRegion::from_memory(vec![0u8; 256]).unwrap();
    assert!(Reader::attach(&unset).is_err());
}

#[test]
fn producer_and_reader_exchange_frames_and_consumer_state() {
    let second = 1_000_000;
    let size = PixelFormat::Nv12.frame_size(64, 36);
    let mut region = SharedRegion::from_memory(vec![0u8; BGCAM_HEADER_SIZE as usize + size]).unwrap();
    let mut producer = Producer::attach(&mut region, false, second).unwrap();
    let mode = OutputMode {
        width: 1280,
        height: 720,
        fps_numerator: 30,
        fps_denominator: 1,
    };
    region.set_output_mode(mode).unwrap();

    let mut now = 10 * second;
    let mut reader = Reader::attach(&region).unwrap();
    assert_eq!(region.output_mode(), Some(mode));
    assert!(!region.consumer_state(now).active);
    assert!(!region.producer_alive(now));

    reader.start(&mut region, PixelFormat::Nv12, now);
    let consumer = region.consumer_state(now);
    assert!(consumer.active);
    assert_eq!(consumer.format, Some(PixelFormat::Nv12));
    assert_eq!(consumer.count, 1);

    let pixels: Vec<u8> = (0..size).map(|i| i as u8).collect();
    now += second / 10;
    producer
        .publish_parts(&mut region, PixelFormat::Nv12, 64, 36, &[pixels.as_slice()], now)
        .unwrap();
    assert!(region.producer_alive(now));
    let mut out = vec![0u8; pixels.len()];
    let info = region.read_frame(&mut out).unwrap().unwrap();
    assert_eq!((info.width, info.height, info.frame_number), (64, 36, 1));
    assert_eq!(out, pixels);

    assert!(reader.stop(&mut region));
    assert!(!reader.stop(&mut region));
    assert!(!region.consumer_state(now).active);

    assert!(Reader::attach(&region).is_ok());
    region.set_producer_active(false, now);
    assert!(!region.producer_alive(now));
}

#[test]
fn a_producer_takes_over_memory_of_its_protocol_only() {
    let mut fresh = SharedRegion::from_memory(vec![0u8; 256]).unwrap();
    assert!(matches!(
        Producer::attach(&mut fresh, true, 10),
        Err(IpcError::IncompatibleProtocol { .. })
    ));
    let mut known = region(64);
    assert_eq!(Producer::attach(&mut known, true, 10).unwrap().frame_number, 0);
    assert!(matches!(SharedRegion::from_memory(vec![0u8; 16]), Err(_)));
}

#[test]
fn waker_interrupts_consumer_wait_and_parts_are_concatenated() {
    let mut region = region(64);
    let mut producer = Producer::attach(&mut region, true, 1_000_000).unwrap();
    let luma = [7u8; 16];
    let chroma = [9u8; 8];
    producer
        .publish_parts(&mut region, PixelFormat::Nv12, 4, 4, &[&luma[..], &chroma[..]], 5)
        .unwrap();
    let mut out = [0u8; 24];
    region.read_frame(&mut out).unwrap().unwrap();
    assert_eq!(&out[..16], &luma);
    assert_eq!(&out[16..], &chroma);
}

#[test]
fn refused_frames_use_up_their_number() {
    let mut region = region(64);
    let mut producer = Producer::attach(&mut region, true, 1_000_000).unwrap();
    assert!(producer
        .publish_parts(&mut region, PixelFormat::Nv12, 4, 4, &[&[0u8; 3][..]], 5)
        .is_err());
    producer
        .publish_parts(&mut region, PixelFormat::Nv12, 4, 4, &[&[0u8; 24][..]], 5)
        .unwrap();
    let mut out = [0u8; 24];
    assert_eq!(region.read_frame(&mut out).unwrap().unwrap().frame_number, 2);
}

#[test]
fn object_names_carry_their_prefix() {
    let local = ObjectNames::local();
    assert!(local.section.starts_with("Local\\"));
    let session = ObjectNames::for_session(3);
    assert!(session.frame_ready.starts_with("Session\\3\\"));
    assert!(ObjectNames::with_prefix("x-").consumer_changed.starts_with("x-"));
}

#[test]
fn frames_stay_whole_as_they_change_in_size_and_format() {
    let sizes = [(64u32, 36u32), (128, 72), (32, 18)];
    let mut region = region(PixelFormat::Bgra.frame_size(128, 72));
    let mut out = vec![0u8; region.capacity()];
    let mut last = 0;
    for frame_number in 1..=200u64 {
        let (width, height) = sizes[(frame_number % 3) as usize];
        let format = if frame_number % 2 == 0 {
            PixelFormat::Nv12
        } else {
            PixelFormat::Bgra
        };
        let pixels = vec![(frame_number % 251) as u8; format.frame_size(width, height)];
        region
            .write_frame(format, width, height, frame_number, frame_number as i64, &pixels)
            .unwrap();
        let info = region.read_frame(&mut out).unwrap().unwrap();
        assert_eq!((info.width, info.height, info.format), (width, height, format));
        assert!(out[..info.size].iter().all(|&b| b == (frame_number % 251) as u8));
        assert!(info.frame_number >= last);
        last = info.frame_number;
    }
}
