use can_log_decoder::config::DecoderConfig;
use chrono::{Datelike, Timelike};
use can_log_decoder::decoder::Decoder;
use can_log_decoder::formats::blf::{
    BlfFileStats, BlfFrameIterator, BlfParser, BlfStep, HybridBlfParser,
};
use can_log_decoder::formats::blf_extended::{CanFdMessage, ObjectHeader};
use can_log_decoder::formats::bytes::{read_u16, read_u32, read_u64};
use can_log_decoder::formats::mf4::{mf4_item, MdfCanFrame, MdfError, Mf4Item};
use can_log_decoder::types::{CanFrame, DecodedEvent, DecoderError};

fn header(uncompressed_size: u64) -> Vec<u8> {
    let mut h = Vec::new();
    h.extend_from_slice(b"LOGG");
    h.extend_from_slice(&144u32.to_le_bytes());
    h.extend_from_slice(&4070100u32.to_le_bytes());
    h.extend_from_slice(&[2, 1, 2, 3]);
    h.extend_from_slice(&420u64.to_le_bytes());
    h.extend_from_slice(&uncompressed_size.to_le_bytes());
    h.extend_from_slice(&4u32.to_le_bytes());
    h.extend_from_slice(&3u32.to_le_bytes());
    for word in [2024u16, 4, 5, 26, 18, 52, 20, 123] {
        h.extend_from_slice(&word.to_le_bytes());
    }
    for word in [2024u16, 4, 5, 26, 18, 53, 0, 0] {
        h.extend_from_slice(&word.to_le_bytes());
    }
    h.extend_from_slice(&[0u8; 72]);
    assert_eq!(h.len(), 144);
    h
}

fn object(kind: u32, timestamp_ns: u64, body: &[u8]) -> Vec<u8> {
    let size = 32 + body.len() as u32;
    let mut o = Vec::new();
    o.extend_from_slice(b"LOBJ");
    o.extend_from_slice(&32u16.to_le_bytes());
    o.extend_from_slice(&1u16.to_le_bytes());
    o.extend_from_slice(&size.to_le_bytes());
    o.extend_from_slice(&kind.to_le_bytes());
    o.extend_from_slice(&0u32.to_le_bytes());
    o.extend_from_slice(&0u16.to_le_bytes());
    o.extend_from_slice(&0u16.to_le_bytes());
    o.extend_from_slice(&timestamp_ns.to_le_bytes());
    o.extend_from_slice(body);
    for _ in 0..(size % 4) {
        o.push(0);
    }
    o
}

fn can_message(timestamp_ns: u64, channel: u16, flags: u8, id: u32, data: &[u8]) -> Vec<u8> {
    let mut body = Vec::new();
    body.extend_from_slice(&channel.to_le_bytes());
    body.push(flags);
    body.push(data.len() as u8);
    body.extend_from_slice(&id.to_le_bytes());
    body.extend_from_slice(data);
    body.extend_from_slice(&1000u32.to_le_bytes());
    body.push(64);
    body.extend_from_slice(&[0, 0, 0]);
    object(86, timestamp_ns, &body)
}

fn error_frame(timestamp_ns: u64, channel: u16, id: u32, data: [u8; 8]) -> Vec<u8> {
    let mut body = Vec::new();
    body.extend_from_slice(&channel.to_le_bytes());
    body.extend_from_slice(&8u16.to_le_bytes());
    body.extend_from_slice(&0u32.to_le_bytes());
    body.extend_from_slice(&[0, 0, 8, 0]);
    body.extend_from_slice(&0u32.to_le_bytes());
    body.extend_from_slice(&id.to_le_bytes());
    body.extend_from_slice(&0u16.to_le_bytes());
    body.extend_from_slice(&0u16.to_le_bytes());
    body.extend_from_slice(&data);
    object(73, timestamp_ns, &body)
}

fn canfd_body(channel: u16, flags: u8, id: u32, fd_flags: u8, valid: u8, data: &[u8]) -> Vec<u8> {
    let mut body = Vec::new();
    body.extend_from_slice(&channel.to_le_bytes());
    body.push(flags);
    body.push(15);
    body.extend_from_slice(&id.to_le_bytes());
    body.extend_from_slice(&2000u32.to_le_bytes());
    body.push(99);
    body.push(fd_flags);
    body.push(valid);
    body.extend_from_slice(&[0; 5]);
    let mut field = [0u8; 64];
    field[..data.len()].copy_from_slice(data);
    body.extend_from_slice(&field);
    assert_eq!(body.len(), 84);
    body
}

fn container(method: u16, uncompressed_size: u32, payload: &[u8]) -> Vec<u8> {
    let size = 32 + payload.len() as u32;
    let mut o = Vec::new();
    o.extend_from_slice(b"LOBJ");
    o.extend_from_slice(&16u16.to_le_bytes());
    o.extend_from_slice(&1u16.to_le_bytes());
    o.extend_from_slice(&size.to_le_bytes());
    o.extend_from_slice(&10u32.to_le_bytes());
    o.extend_from_slice(&method.to_le_bytes());
    o.extend_from_slice(&[0; 6]);
    o.extend_from_slice(&uncompressed_size.to_le_bytes());
    o.extend_from_slice(&0u32.to_le_bytes());
    o.extend_from_slice(payload);
    for _ in 0..(size % 4) {
        o.push(0);
    }
    o
}

fn zlib_stored(data: &[u8]) -> Vec<u8> {
    assert!(data.len() < 65536);
    let mut z = vec![0x78, 0x01, 0x01];
    z.extend_from_slice(&(data.len() as u16).to_le_bytes());
    z.extend_from_slice(&(!(data.len() as u16)).to_le_bytes());
    z.extend_from_slice(data);
    let (mut a, mut b) = (1u32, 0u32);
    for byte in data {
        a = (a + *byte as u32) % 65521;
        b = (b + a) % 65521;
    }
    z.extend_from_slice(&((b << 16) | a).to_be_bytes());
    z
}

fn file(objects: &[Vec<u8>]) -> Vec<u8> {
    let mut f = header(0);
    for o in objects {
        f.extend_from_slice(o);
    }
    f
}

fn drain(mut frames: BlfFrameIterator) -> Vec<Result<CanFrame, DecoderError>> {
    let mut all = Vec::new();
    while let Some(item) = frames.next() {
        all.push(item);
    }
    assert!(frames.next().is_none());
    all
}

fn frames_of(bytes: Vec<u8>) -> Vec<CanFrame> {
    drain(BlfParser::parse(bytes).unwrap()).into_iter().map(|f| f.unwrap()).collect()
}

#[test]
fn test_blf_file_not_found() {
    // A file that is not there yields no bytes to parse.
    let result = BlfParser::parse(Vec::new());
    assert!(result.is_err());
}

#[test]
fn little_endian_numbers() {
    let data = [0x34, 0x12, 0x78, 0x56, 0xBC, 0x9A, 0xF0, 0xDE, 0x01];
    assert_eq!(read_u16(&data, 0), 0x1234);
    assert_eq!(read_u16(&data, 7), 0x01DE);
    assert_eq!(read_u32(&data, 0), 0x5678_1234);
    assert_eq!(read_u32(&data, 5), 0x01DE_F09A);
    assert_eq!(read_u64(&data, 0), 0xDEF0_9ABC_5678_1234);
    assert_eq!(read_u64(&[0xFF; 8], 0), u64::MAX);
}

#[test]
fn file_header_is_read() {
    let stats = BlfFileStats::parse(&header(1_000)).unwrap();
    assert_eq!(stats.stats_size, 144);
    assert_eq!(stats.api_version, 4070100);
    assert_eq!(stats.application_id, 2);
    assert_eq!(stats.application_version, (1, 2, 3));
    assert_eq!(stats.file_size, 420);
    assert_eq!(stats.uncompressed_size, 1_000);
    assert_eq!(stats.object_count, 4);
    assert_eq!(stats.object_read, 3);
    assert_eq!(stats.measurement_start, [2024, 4, 5, 26, 18, 52, 20, 123]);
    assert_eq!(stats.last_object_time, [2024, 4, 5, 26, 18, 53, 0, 0]);
    assert!(stats.is_compressed());
    assert!(!BlfFileStats::parse(&header(420)).unwrap().is_compressed());
}

#[test]
fn measurement_start_is_a_date_and_time() {
    let stats = BlfFileStats::parse(&header(0)).unwrap();
    let expected = chrono::NaiveDate::from_ymd_opt(2024, 4, 26)
        .unwrap()
        .and_hms_milli_opt(18, 52, 20, 123)
        .unwrap();
    assert_eq!(stats.measurement_start_time(), Some(expected));
    let mut bytes = header(0);
    bytes[42] = 13; // month 13
    assert_eq!(BlfFileStats::parse(&bytes).unwrap().measurement_start_time(), None);
    let mut bytes = header(0);
    bytes[48] = 24; // hour 24
    assert_eq!(BlfFileStats::parse(&bytes).unwrap().measurement_start_time(), None);
}

#[test]
fn bad_file_headers_are_refused() {
    let good = header(0);
    assert_eq!(
        BlfFileStats::parse(&good[..143]),
        Err(DecoderError::LogParseError("BLF file header is cut short".to_string()))
    );
    let mut wrong_tag = good.clone();
    wrong_tag[3] = b'X';
    assert_eq!(
        BlfFileStats::parse(&wrong_tag),
        Err(DecoderError::LogParseError("Invalid BLF file signature".to_string()))
    );
    let mut wrong_size = good.clone();
    wrong_size[4] = 143;
    match BlfParser::parse(wrong_size) {
        Err(DecoderError::LogParseError(text)) => assert_eq!(text, "Invalid BLF file format"),
        _ => panic!("a header of another size was taken"),
    }
    assert!(BlfParser::parse(good).is_ok());
}

#[test]
fn object_header_is_read() {
    let o = can_message(5, 1, 0, 0x123, &[1, 2, 3, 4, 5, 6, 7, 8]);
    let h = ObjectHeader::parse(&o).unwrap();
    assert_eq!(h.signature, *b"LOBJ");
    assert_eq!(h.header_size, 32);
    assert_eq!(h.header_version, 1);
    assert_eq!(h.object_size, 56);
    assert_eq!(h.object_type, 86);
    assert!(matches!(ObjectHeader::parse(&o[..31]), Err(DecoderError::LogParseError(_))));
    let mut bad = o.clone();
    bad[0] = b'X';
    assert!(matches!(ObjectHeader::parse(&bad), Err(DecoderError::LogParseError(_))));
}

#[test]
fn canfd_message_is_read_and_converted() {
    let body = canfd_body(2, 0x80, 0x8000_0123, 0x01, 3, &[0xA, 0xB, 0xC, 0xD]);
    let m = CanFdMessage::parse(&body, 777).unwrap();
    assert_eq!(m.channel, 2);
    assert_eq!(m.flags, 0x80);
    assert_eq!(m.dlc, 15);
    assert_eq!(m.can_id, 0x8000_0123);
    assert_eq!(m.frame_length_ns, 2000);
    assert_eq!(m.bit_count, 99);
    assert_eq!(m.fd_flags, 1);
    assert_eq!(m.valid_data_bytes, 3);
    assert_eq!(m.data.len(), 64);
    assert_eq!(m.timestamp_ns, 777);
    let f = m.to_can_frame();
    assert_eq!(
        f,
        CanFrame {
            timestamp_ns: 777,
            channel: 1,
            can_id: 0x123,
            data: vec![0xA, 0xB, 0xC],
            is_extended: true,
            is_fd: true,
            is_error_frame: false,
            is_remote_frame: true,
        }
    );
    assert!(matches!(CanFdMessage::parse(&body[..83], 0), Err(DecoderError::LogParseError(_))));
    let all = CanFdMessage::parse(&canfd_body(0, 0, 5, 0, 200, &[7; 64]), 0).unwrap().to_can_frame();
    assert_eq!(all.data, vec![7; 64]);
    assert_eq!(all.channel, 0);
    assert!(!all.is_extended && !all.is_fd && !all.is_remote_frame);
}

#[test]
fn frames_of_a_plain_file() {
    let frames = frames_of(file(&[
        can_message(100, 1, 0x02, 0x1234_5678, &[1, 2, 3, 4, 5, 6, 7, 8]),
        object(65, 150, &[0; 20]),
        can_message(200, 258, 0x84, 0x7FF, &[9, 8, 7]),
        error_frame(300, 3, 0x55, [1, 1, 2, 3, 5, 8, 13, 21]),
        object(100, 400, &canfd_body(1, 0, 0x321, 1, 2, &[0xEE, 0xFF])),
        object(101, 500, &canfd_body(4, 0, 0x322, 0, 1, &[0x11])),
        object(123, 600, &[1, 2, 3]),
    ]));
    assert_eq!(frames.len(), 5);
    assert_eq!(
        frames[0],
        CanFrame {
            timestamp_ns: 100,
            channel: 1,
            can_id: 0x1234_5678,
            data: vec![1, 2, 3, 4, 5, 6, 7, 8],
            is_extended: true,
            is_fd: false,
            is_error_frame: false,
            is_remote_frame: false,
        }
    );
    assert_eq!(frames[1].timestamp_ns, 200);
    assert_eq!(frames[1].channel, 2);
    assert_eq!(frames[1].data, vec![9, 8, 7]);
    assert!(frames[1].is_fd && frames[1].is_remote_frame && !frames[1].is_extended);
    assert_eq!(
        frames[2],
        CanFrame {
            timestamp_ns: 300,
            channel: 3,
            can_id: 0x55,
            data: vec![1, 1, 2, 3, 5, 8, 13, 21],
            is_extended: false,
            is_fd: false,
            is_error_frame: true,
            is_remote_frame: false,
        }
    );
    assert_eq!(frames[3].can_id, 0x321);
    assert_eq!(frames[3].data, vec![0xEE, 0xFF]);
    assert_eq!(frames[3].channel, 0);
    assert!(frames[3].is_fd);
    assert_eq!(frames[4].timestamp_ns, 500);
    assert_eq!(frames[4].channel, 3);
}

#[test]
fn empty_file_has_no_frames() {
    assert!(frames_of(header(0)).is_empty());
    let mut cut = header(0);
    cut.extend_from_slice(b"LOB");
    assert!(frames_of(cut).is_empty());
}

#[test]
fn frames_inside_containers() {
    let inner: Vec<u8> =
        [can_message(1, 1, 0, 0x10, &[1]), can_message(2, 1, 0, 0x11, &[2, 3])].concat();
    let frames = frames_of(file(&[
        container(0, inner.len() as u32, &inner),
        can_message(3, 1, 0, 0x12, &[4]),
        container(2, inner.len() as u32, &zlib_stored(&inner)),
    ]));
    let ids: Vec<u32> = frames.iter().map(|f| f.can_id).collect();
    assert_eq!(ids, vec![0x10, 0x11, 0x12, 0x10, 0x11]);
    assert_eq!(frames[4].data, vec![2, 3]);
}

#[test]
fn object_cut_in_two_by_containers_is_spliced() {
    let inner: Vec<u8> = [
        can_message(1, 1, 0, 0x10, &[1, 2, 3, 4]),
        can_message(2, 1, 0, 0x11, &[5, 6, 7, 8]),
        can_message(3, 1, 0, 0x12, &[9]),
    ]
    .concat();
    for cut in [10usize, 52, 60, 100, 110] {
        let frames = frames_of(file(&[
            container(0, cut as u32, &inner[..cut]),
            object(65, 0, &[0; 4]),
            container(2, (inner.len() - cut) as u32, &zlib_stored(&inner[cut..])),
        ]));
        let ids: Vec<u32> = frames.iter().map(|f| f.can_id).collect();
        assert_eq!(ids, vec![0x10, 0x11, 0x12], "cut at {}", cut);
        assert_eq!(frames[1].data, vec![5, 6, 7, 8]);
    }
}

#[test]
fn nested_container_is_passed_over() {
    let innermost = can_message(1, 1, 0, 0x10, &[1]);
    let inner: Vec<u8> =
        [container(0, innermost.len() as u32, &innermost), can_message(2, 1, 0, 0x11, &[2])].concat();
    let frames = frames_of(file(&[container(0, inner.len() as u32, &inner)]));
    let ids: Vec<u32> = frames.iter().map(|f| f.can_id).collect();
    assert_eq!(ids, vec![0x11]);
}

#[test]
fn container_that_cannot_be_unpacked_gives_a_failure() {
    let inner = can_message(1, 1, 0, 0x10, &[1]);
    let mut damaged = zlib_stored(&inner);
    let last = damaged.len() - 1;
    damaged[last] ^= 0xFF;
    let items = drain(
        BlfParser::parse(file(&[
            container(7, inner.len() as u32, &inner),
            container(2, inner.len() as u32, &damaged),
            container(2, inner.len() as u32, &[0x78, 0x01]),
            can_message(2, 1, 0, 0x11, &[2]),
        ]))
        .unwrap(),
    );
    assert_eq!(items.len(), 4);
    assert!(matches!(items[0], Err(DecoderError::LogParseError(_))));
    assert!(matches!(items[1], Err(DecoderError::LogParseError(_))));
    assert!(matches!(items[2], Err(DecoderError::LogParseError(_))));
    assert_eq!(items[3].as_ref().unwrap().can_id, 0x11);
}

#[test]
fn reading_resynchronizes_after_bad_bytes() {
    let mut bytes = header(0);
    bytes.extend_from_slice(&can_message(1, 1, 0, 0x10, &[1]));
    bytes.extend_from_slice(&[0xAA; 1000]);
    bytes.extend_from_slice(&can_message(2, 1, 0, 0x11, &[2]));
    bytes.extend_from_slice(&[0xAA; 1001]);
    bytes.extend_from_slice(&can_message(3, 1, 0, 0x12, &[3]));
    let ids: Vec<u32> = frames_of(bytes).iter().map(|f| f.can_id).collect();
    assert_eq!(ids, vec![0x10, 0x11]);
}

#[test]
fn container_is_left_after_too_many_bad_bytes() {
    let mut inner = vec![0xAA; 1001];
    inner.extend_from_slice(&can_message(1, 1, 0, 0x10, &[1]));
    let frames = frames_of(file(&[
        container(0, inner.len() as u32, &inner),
        container(0, 0, &[]),
        can_message(2, 1, 0, 0x11, &[2]),
    ]));
    // What was not read of the first container is read with the second.
    let ids: Vec<u32> = frames.iter().map(|f| f.can_id).collect();
    assert_eq!(ids, vec![0x10, 0x11]);
}

#[test]
fn object_that_is_cut_short_ends_the_file() {
    let mut bytes = header(0);
    bytes.extend_from_slice(&can_message(1, 1, 0, 0x10, &[1]));
    let whole = can_message(2, 1, 0, 0x11, &[2, 3, 4, 5]);
    bytes.extend_from_slice(&whole[..whole.len() - 1]);
    let ids: Vec<u32> = frames_of(bytes).iter().map(|f| f.can_id).collect();
    assert_eq!(ids, vec![0x10]);

    let mut small = object(86, 0, &[0; 8]);
    small.extend_from_slice(&can_message(2, 1, 0, 0x11, &[2]));
    assert!(frames_of(file(&[small])).is_empty());
}

#[test]
fn objects_are_padded_to_four_bytes() {
    for n in 0..8usize {
        let data: Vec<u8> = (0..n as u8).collect();
        let frames = frames_of(file(&[
            can_message(1, 1, 0, 0x10, &data),
            can_message(2, 1, 0, 0x11, &[0xFF]),
        ]));
        assert_eq!(frames.len(), 2, "payload of {} bytes", n);
        assert_eq!(frames[0].data, data);
        assert_eq!(frames[1].can_id, 0x11);
    }
}

#[test]
fn payload_is_no_larger_than_the_objects() {
    let inner: Vec<u8> =
        [can_message(1, 1, 0, 0x10, &[1; 8]), error_frame(2, 1, 0x11, [2; 8])].concat();
    let objects = vec![
        container(2, inner.len() as u32, &zlib_stored(&inner)),
        object(100, 3, &canfd_body(1, 0, 0x12, 1, 64, &[3; 64])),
        can_message(4, 1, 0, 0x13, &[]),
    ];
    let unpacked: usize = inner.len() + objects[1].len() + objects[2].len();
    let mut bytes = header(unpacked as u64);
    for o in &objects {
        bytes.extend_from_slice(o);
    }
    let declared = BlfFileStats::parse(&bytes).unwrap().uncompressed_size;
    let payload: usize = frames_of(bytes).iter().map(|f| f.data.len()).sum();
    assert_eq!(payload, 8 + 8 + 64);
    assert!(payload as u64 <= declared);
}

#[test]
fn hybrid_parser_reads_the_same_frames() {
    let bytes = file(&[
        can_message(1, 1, 0, 0x10, &[1]),
        object(100, 2, &canfd_body(1, 0, 0x11, 1, 1, &[2])),
    ]);
    let plain = frames_of(bytes.clone());
    let hybrid: Vec<CanFrame> =
        drain(HybridBlfParser::parse(bytes).unwrap()).into_iter().map(|f| f.unwrap()).collect();
    assert_eq!(plain, hybrid);
    assert_eq!(hybrid.len(), 2);
    assert!(HybridBlfParser::parse(Vec::new()).is_err());
}

#[test]
fn decoder_reads_a_blf_file() {
    let decoder = Decoder::new();
    let bytes = file(&[can_message(5, 1, 0, 0x10, &[1, 2]), container(9, 0, &[])]);
    let mut events = decoder.decode_file("Trace.BLF", bytes, DecoderConfig::new()).unwrap();
    assert_eq!(
        events.next().unwrap().unwrap(),
        DecodedEvent::RawFrame { timestamp: 5, channel: 1, can_id: 0x10, data: vec![1, 2], is_fd: false }
    );
    assert!(matches!(events.next(), Some(Err(DecoderError::LogParseError(_)))));
    assert!(events.next().is_none());
    assert!(decoder.decode_file("trace.blf", vec![0; 200], DecoderConfig::new()).is_err());
}

#[test]
fn measurement_data_frames() {
    let mut data = [0u8; 64];
    data[0] = 0xAB;
    data[1] = 0xCD;
    let handed = MdfCanFrame {
        timestamp_ns: 9,
        channel: 2,
        can_id: 0x77,
        data,
        data_length: 2,
        is_extended: 1,
        is_fd: 0,
        is_error_frame: 0,
        is_remote_frame: 5,
    };
    let frame = handed.to_can_frame().unwrap();
    assert_eq!(
        frame,
        CanFrame {
            timestamp_ns: 9,
            channel: 2,
            can_id: 0x77,
            data: vec![0xAB, 0xCD],
            is_extended: true,
            is_fd: false,
            is_error_frame: false,
            is_remote_frame: true,
        }
    );
    assert_eq!(mf4_item(MdfError::NoError, &handed, ""), Mf4Item::Frame(frame));
    assert_eq!(mf4_item(MdfError::EndOfData, &handed, ""), Mf4Item::End);
    assert!(matches!(
        mf4_item(MdfError::ReadFailed, &handed, "disk"),
        Mf4Item::Failed(DecoderError::LogParseError(_))
    ));
    let mut long = handed.clone();
    long.data_length = 65;
    assert!(long.to_can_frame().is_none());
    assert!(matches!(mf4_item(MdfError::NoError, &long, ""), Mf4Item::Failed(_)));
    long.data_length = 64;
    assert_eq!(long.to_can_frame().unwrap().data.len(), 64);
}

fn stream(bytes: &[u8], first: usize, chunk: usize) -> Vec<Result<CanFrame, DecoderError>> {
    let first = first.min(bytes.len());
    let mut reader = BlfParser::open(bytes[..first].to_vec()).unwrap();
    let mut at = first;
    let mut complete = false;
    let mut items = Vec::new();
    loop {
        match reader.next_step() {
            BlfStep::Frame(f) => items.push(Ok(f)),
            BlfStep::Failed(e) => items.push(Err(e)),
            BlfStep::End => break,
            BlfStep::NeedsBytes => {
                assert!(!complete, "bytes asked for after the end of the file");
                if at == bytes.len() {
                    reader.finish();
                    complete = true;
                } else {
                    let to = (at + chunk).min(bytes.len());
                    reader.feed(&bytes[at..to]);
                    at = to;
                }
            }
        }
    }
    assert_eq!(reader.next_step(), BlfStep::End);
    items
}

#[test]
fn file_fed_piece_by_piece_gives_the_same_frames() {
    let inner: Vec<u8> = [
        can_message(1, 1, 0, 0x10, &[1, 2, 3]),
        can_message(2, 1, 0, 0x11, &[5, 6, 7, 8]),
        error_frame(3, 1, 0x12, [9; 8]),
    ]
    .concat();
    let mut bytes = file(&[
        can_message(0, 1, 0, 0x0F, &[0xF; 5]),
        container(0, 60, &inner[..60]),
        object(65, 0, &[0; 7]),
        container(2, (inner.len() - 60) as u32, &zlib_stored(&inner[60..])),
        container(9, 0, &[1, 2, 3]),
        object(100, 4, &canfd_body(1, 0, 0x13, 1, 2, &[0xEE, 0xFF])),
    ]);
    bytes.extend_from_slice(&[0xAA; 37]);
    bytes.extend_from_slice(&can_message(5, 1, 0, 0x14, &[1]));
    bytes.extend_from_slice(b"LOBJ\x20\x00");
    let whole = drain(BlfParser::parse(bytes.clone()).unwrap());
    assert_eq!(whole.len(), 7);
    for (first, chunk) in [(144, 1), (144, 7), (150, 64), (200, 1000), (bytes.len(), 1), (1 << 20, 1)] {
        assert_eq!(stream(&bytes, first, chunk), whole, "first {} chunk {}", first, chunk);
    }
}

#[test]
fn reader_that_is_fed_asks_for_bytes_only_while_the_file_is_open() {
    let bytes = file(&[can_message(1, 1, 0, 0x10, &[1, 2, 3])]);
    let mut reader = BlfParser::open(bytes[..150].to_vec()).unwrap();
    assert_eq!(reader.next_step(), BlfStep::NeedsBytes);
    assert_eq!(reader.next_step(), BlfStep::NeedsBytes);
    // The padding behind the object is waited for as well.
    reader.feed(&bytes[150..bytes.len() - 1]);
    assert_eq!(reader.next_step(), BlfStep::NeedsBytes);
    reader.feed(&bytes[bytes.len() - 1..]);
    assert!(matches!(reader.next_step(), BlfStep::Frame(_)));
    assert_eq!(reader.next_step(), BlfStep::NeedsBytes);
    assert!(!reader.is_complete());
    reader.finish();
    assert!(reader.is_complete());
    assert_eq!(reader.next_step(), BlfStep::End);
    assert!(BlfParser::open(bytes[..143].to_vec()).is_err());
    assert!(BlfParser::parse(bytes).unwrap().is_complete());
}

#[test]
fn malformed_object_ends_the_reading_at_once() {
    let mut bytes = header(0);
    bytes.extend_from_slice(&object(86, 0, &[0; 8]));
    let mut reader = BlfParser::open(bytes).unwrap();
    assert_eq!(reader.next_step(), BlfStep::End);
}

#[test]
fn unpacked_bytes_are_read_behind_the_tail() {
    let inner: Vec<u8> =
        [can_message(1, 1, 0, 0x10, &[1, 2]), can_message(2, 1, 0, 0x11, &[3])].concat();
    let mut reader = BlfParser::parse(file(&[can_message(9, 1, 0, 0x12, &[4])])).unwrap();
    reader.enter_container(&inner[..20]);
    reader.enter_container(&inner[20..60]);
    reader.enter_container(&inner[60..]);
    let ids: Vec<u32> = drain(reader).into_iter().map(|f| f.unwrap().can_id).collect();
    assert_eq!(ids, vec![0x10, 0x11, 0x12]);
}

fn start_of(words: [u16; 8]) -> Option<chrono::NaiveDateTime> {
    let mut bytes = header(0);
    for (i, word) in words.iter().enumerate() {
        bytes[40 + 2 * i..42 + 2 * i].copy_from_slice(&word.to_le_bytes());
    }
    let stats = BlfFileStats::parse(&bytes).unwrap();
    assert_eq!(stats.measurement_start, words);
    stats.measurement_start_time()
}

#[test]
fn measurement_start_has_the_fields_of_the_header() {
    let fields = |words: [u16; 8]| {
        let t = start_of(words).unwrap();
        (t.year(), t.month(), t.day(), t.hour(), t.minute(), t.second(), t.nanosecond() / 1_000_000)
    };
    assert_eq!(fields([2024, 4, 5, 26, 18, 52, 20, 123]), (2024, 4, 26, 18, 52, 20, 123));
    assert_eq!(fields([1999, 12, 0, 31, 23, 59, 59, 999]), (1999, 12, 31, 23, 59, 59, 999));
    assert_eq!(fields([2023, 1, 0, 31, 0, 0, 59, 1500]), (2023, 1, 31, 0, 0, 59, 1500));
    assert_eq!(fields([0, 1, 0, 1, 0, 0, 0, 0]), (0, 1, 1, 0, 0, 0, 0));
}

#[test]
fn measurement_start_is_a_moment_where_day_and_time_exist() {
    let moment = |y: i32, m: u32, d: u32, h: u32, mi: u32, s: u32, ms: u32| {
        chrono::NaiveDate::from_ymd_opt(y, m, d).unwrap().and_hms_milli_opt(h, mi, s, ms).unwrap()
    };
    // The third word, the day of the week, does not count.
    assert_eq!(start_of([2024, 2, 0, 29, 0, 0, 0, 0]), Some(moment(2024, 2, 29, 0, 0, 0, 0)));
    assert_eq!(start_of([2024, 2, 9, 29, 23, 59, 59, 999]), Some(moment(2024, 2, 29, 23, 59, 59, 999)));
    assert_eq!(start_of([2000, 2, 0, 29, 0, 0, 0, 0]), Some(moment(2000, 2, 29, 0, 0, 0, 0)));
    assert_eq!(start_of([0, 2, 0, 29, 0, 0, 0, 0]), Some(moment(0, 2, 29, 0, 0, 0, 0)));
    assert_eq!(start_of([65535, 12, 0, 31, 0, 0, 0, 0]), Some(moment(65535, 12, 31, 0, 0, 0, 0)));
    assert_eq!(start_of([2023, 1, 0, 31, 0, 0, 59, 1999]), Some(moment(2023, 1, 31, 0, 0, 59, 1999)));
    // Days that do not exist.
    assert_eq!(start_of([2023, 2, 0, 29, 0, 0, 0, 0]), None);
    assert_eq!(start_of([1900, 2, 0, 29, 0, 0, 0, 0]), None);
    assert_eq!(start_of([2100, 2, 0, 29, 0, 0, 0, 0]), None);
    assert_eq!(start_of([2024, 2, 0, 30, 0, 0, 0, 0]), None);
    assert_eq!(start_of([2024, 4, 0, 31, 0, 0, 0, 0]), None);
    assert_eq!(start_of([2024, 6, 0, 31, 0, 0, 0, 0]), None);
    assert_eq!(start_of([2024, 9, 0, 31, 0, 0, 0, 0]), None);
    assert_eq!(start_of([2024, 11, 0, 31, 0, 0, 0, 0]), None);
    assert_eq!(start_of([2024, 1, 0, 32, 0, 0, 0, 0]), None);
    assert_eq!(start_of([2024, 1, 0, 0, 0, 0, 0, 0]), None);
    assert_eq!(start_of([2024, 0, 0, 1, 0, 0, 0, 0]), None);
    assert_eq!(start_of([2024, 13, 0, 1, 0, 0, 0, 0]), None);
    // Times that do not exist.
    assert_eq!(start_of([2024, 1, 0, 1, 24, 0, 0, 0]), None);
    assert_eq!(start_of([2024, 1, 0, 1, 0, 60, 0, 0]), None);
    assert_eq!(start_of([2024, 1, 0, 1, 0, 0, 60, 0]), None);
    assert_eq!(start_of([2024, 1, 0, 1, 0, 0, 58, 1000]), None);
    assert_eq!(start_of([2024, 1, 0, 1, 0, 0, 59, 2000]), None);
    assert_eq!(start_of([2024, 1, 0, 1, 0, 0, 0, 65535]), None);
    for month in 1..=12u16 {
        for day in 28..=31u16 {
            let expected = chrono::NaiveDate::from_ymd_opt(2023, month as u32, day as u32).is_some();
            assert_eq!(start_of([2023, month, 0, day, 1, 2, 3, 4]).is_some(), expected);
        }
    }
}
