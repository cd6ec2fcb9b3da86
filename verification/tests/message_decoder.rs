use can_log_decoder::message_decoder::MessageDecoder;
use can_log_decoder::scalar::Scalar;
use can_log_decoder::signals::database::{
    ByteOrder, MessageDefinition, MultiplexerInfo, SignalDefinition, ValueType,
};
use can_log_decoder::types::{CanFrame, DecodedEvent, PhysicalValue, SignalValue};
use std::collections::HashMap;

fn signal(name: &str, start_bit: u16, length: u16) -> SignalDefinition {
    SignalDefinition {
        name: name.to_string(),
        start_bit,
        length,
        byte_order: ByteOrder::LittleEndian,
        value_type: ValueType::Unsigned,
        factor: Scalar::from_bits(1.0f64.to_bits()),
        offset: Scalar::from_bits(0.0f64.to_bits()),
        min: Scalar::from_bits(0.0f64.to_bits()),
        max: Scalar::from_bits(100.0f64.to_bits()),
        unit: None,
        value_table: None,
        multiplexer_info: None,
    }
}

fn gated(name: &str, start_bit: u16, length: u16, value: u64) -> SignalDefinition {
    let mut s = signal(name, start_bit, length);
    s.multiplexer_info = Some(MultiplexerInfo {
        multiplexer_signal: "Mode".to_string(),
        multiplexer_values: vec![value],
    });
    s
}

fn frame(data: Vec<u8>) -> CanFrame {
    CanFrame {
        timestamp_ns: 5_000,
        channel: 2,
        can_id: 0x200,
        data,
        is_extended: false,
        is_fd: false,
        is_error_frame: false,
        is_remote_frame: false,
    }
}

fn multiplexed_message() -> MessageDefinition {
    MessageDefinition {
        id: 0x200,
        name: "MultiplexedMsg".to_string(),
        size: 8,
        sender: Some("ECU1".to_string()),
        signals: vec![signal("Mode", 0, 8), gated("SignalA", 8, 16, 0), gated("SignalB", 8, 16, 1)],
        is_multiplexed: true,
        multiplexer_signal: Some("Mode".to_string()),
        source: "test.dbc".to_string(),
    }
}

fn physical(value: &SignalValue) -> f64 {
    match value {
        SignalValue::Float(PhysicalValue { raw, factor, offset }) => {
            let f = match factor {
                Scalar::Whole(n) => *n as f64,
                Scalar::Double(bits) => f64::from_bits(*bits),
            };
            let o = match offset {
                Scalar::Whole(n) => *n as f64,
                Scalar::Double(bits) => f64::from_bits(*bits),
            };
            o + f * (*raw as f64)
        }
        SignalValue::Integer(v) => *v as f64,
        SignalValue::Boolean(v) => {
            if *v {
                1.0
            } else {
                0.0
            }
        }
    }
}

#[test]
fn test_extract_little_endian_simple() {
    // Signal: 8 bits starting at bit 0 (byte 0)
    let data = vec![0xAB, 0xCD, 0xEF, 0x12];
    let value = MessageDecoder::extract_little_endian(&data, 0, 8);
    assert_eq!(value, 0xAB);
}

#[test]
fn test_extract_big_endian_simple() {
    // Signal: 8 bits starting at bit 7 (the last bit of byte 0), running on
    // into byte 1: bit 7 of 0xAB, then bits 0 to 6 of 0xCD.
    let data = vec![0xAB, 0xCD, 0xEF, 0x12];
    let value = MessageDecoder::extract_big_endian(&data, 7, 8);
    assert_eq!(value, 0xE6);
}

#[test]
fn test_extract_little_endian_cross_byte() {
    // Signal: 16 bits starting at bit 0 (bytes 0-1)
    let data = vec![0xAB, 0xCD, 0xEF, 0x12];
    let value = MessageDecoder::extract_little_endian(&data, 0, 16);
    assert_eq!(value, 0xCDAB); // Little-endian byte order
}

#[test]
fn test_sign_extend_positive() {
    // 8-bit value 0x7F (127) should remain positive
    let value = MessageDecoder::sign_extend(0x7F, 8);
    assert_eq!(value, 127);
}

#[test]
fn test_sign_extend_negative() {
    // 8-bit value 0xFF (-1 in two's complement) should become -1
    let value = MessageDecoder::sign_extend(0xFF, 8);
    assert_eq!(value, -1);
}

#[test]
fn test_sign_extend_negative_16bit() {
    // 16-bit value 0x8000 (-32768 in two's complement)
    let value = MessageDecoder::sign_extend(0x8000, 16);
    assert_eq!(value, -32768);
}

#[test]
fn little_endian_byte_at_each_byte_start() {
    let data = vec![0xAB, 0xCD, 0xEF, 0x12];
    for k in 0..data.len() {
        assert_eq!(MessageDecoder::extract_little_endian(&data, 8 * k, 8), data[k] as u64);
    }
}

#[test]
fn little_endian_twelve_bits_across_bytes() {
    let data = vec![0x00, 0x5A, 0x03, 0x00, 0x00, 0x00, 0x00, 0x00];
    assert_eq!(MessageDecoder::extract_little_endian(&data, 8, 12), 0x35A);
}

#[test]
fn big_endian_byte_at_each_byte_start() {
    let data = vec![0xAB, 0xCD, 0xEF, 0x12];
    for k in 0..data.len() {
        assert_eq!(MessageDecoder::extract_big_endian(&data, 8 * k, 8), data[k] as u64);
    }
}

#[test]
fn big_endian_from_the_last_bit_of_a_byte() {
    // The lowest bit of 0xAB, then the upper seven bits of 0xCD.
    let data = vec![0xAB, 0xCD, 0xEF, 0x12];
    assert_eq!(MessageDecoder::extract_big_endian(&data, 7, 8), 0xE6);
    // Where byte k repeats those bits one place lower, the signal is byte k.
    let data = vec![0xFF, 0xFE];
    assert_eq!(MessageDecoder::extract_big_endian(&data, 7, 8), 0xFF);
    let data = vec![0x00, 0x01];
    assert_eq!(MessageDecoder::extract_big_endian(&data, 7, 8), 0x00);
}

#[test]
fn big_endian_sixteen_bits() {
    let data = vec![0x12, 0x34, 0x56];
    assert_eq!(MessageDecoder::extract_big_endian(&data, 0, 16), 0x1234);
    assert_eq!(MessageDecoder::extract_big_endian(&data, 4, 8), 0x23);
}

#[test]
fn bits_beyond_the_payload_read_as_zero() {
    let data = vec![0xFF];
    assert_eq!(MessageDecoder::extract_little_endian(&data, 4, 8), 0x0F);
    assert_eq!(MessageDecoder::extract_big_endian(&data, 4, 8), 0xF0);
    assert_eq!(MessageDecoder::extract_little_endian(&data, 0, 0), 0);
}

#[test]
fn full_width_signals() {
    let data = vec![0x01, 0x02, 0x03, 0x04, 0x05, 0x06, 0x07, 0x88];
    assert_eq!(MessageDecoder::extract_little_endian(&data, 0, 64), 0x8807_0605_0403_0201);
    assert_eq!(MessageDecoder::extract_big_endian(&data, 0, 64), 0x0102_0304_0506_0788);
    assert_eq!(MessageDecoder::sign_extend(0x8807_0605_0403_0201, 64), 0x8807_0605_0403_0201u64 as i64);
}

#[test]
fn sign_extension_law_on_small_lengths() {
    for length in 1..=12usize {
        for raw in 0..(1u64 << length) {
            let expected = if raw < (1u64 << (length - 1)) {
                raw as i64
            } else {
                raw as i64 - (1i64 << length)
            };
            assert_eq!(MessageDecoder::sign_extend(raw, length), expected);
        }
    }
    assert_eq!(MessageDecoder::sign_extend((1u64 << 62) - 1, 63), (1i64 << 62) - 1);
    assert_eq!(MessageDecoder::sign_extend(1u64 << 62, 63), -(1i64 << 62));
}

#[test]
fn sign_extension_ignores_nothing_above_the_sign_bit_when_it_is_clear() {
    assert_eq!(MessageDecoder::sign_extend(0x17F, 8), 0x17F);
    assert_eq!(MessageDecoder::sign_extend(0x1FF, 8), -1);
}

#[test]
fn signal_that_does_not_fit_has_no_value() {
    let data = vec![0x01, 0x02];
    assert_eq!(MessageDecoder::extract_signal_value(&data, &signal("S", 8, 8)), Some(2));
    assert_eq!(MessageDecoder::extract_signal_value(&data, &signal("S", 9, 8)), None);
    assert_eq!(MessageDecoder::extract_signal_value(&data, &signal("S", 0, 0)), None);
    assert_eq!(MessageDecoder::extract_signal_value(&data, &signal("S", 0, 65)), None);
    assert!(MessageDecoder::decode_signal(&data, &signal("S", 16, 1)).is_none());
}

#[test]
fn signed_signal_is_sign_extended() {
    let mut s = signal("Temp", 0, 8);
    s.value_type = ValueType::Signed;
    assert_eq!(MessageDecoder::extract_signal_value(&[0xFF], &s), Some(-1));
    s.length = 16;
    assert_eq!(MessageDecoder::extract_signal_value(&[0x00, 0x80], &s), Some(-32768));
    s.value_type = ValueType::Unsigned;
    assert_eq!(MessageDecoder::extract_signal_value(&[0x00, 0x80], &s), Some(32768));
}

#[test]
fn physical_conversion_of_battery_soc() {
    let mut s = signal("BatterySOC", 0, 8);
    s.factor = Scalar::from_bits(0.5f64.to_bits());
    s.unit = Some("%".to_string());
    let decoded = MessageDecoder::decode_signal(&[150], &s).unwrap();
    assert_eq!(decoded.raw_value, 150);
    assert_eq!(
        decoded.value,
        SignalValue::Float(PhysicalValue {
            raw: 150,
            factor: Scalar::from_bits(0.5f64.to_bits()),
            offset: Scalar::from_bits(0.0f64.to_bits()),
        })
    );
    assert_eq!(physical(&decoded.value), 75.0);
    assert_eq!(decoded.unit, Some("%".to_string()));
    assert_eq!(decoded.name, "BatterySOC");
}

#[test]
fn value_is_presented_by_scaling_and_length() {
    let flag = MessageDecoder::decode_signal(&[0x01], &signal("Flag", 0, 1)).unwrap();
    assert_eq!(flag.value, SignalValue::Boolean(true));
    let clear = MessageDecoder::decode_signal(&[0x00], &signal("Flag", 0, 1)).unwrap();
    assert_eq!(clear.value, SignalValue::Boolean(false));
    let count = MessageDecoder::decode_signal(&[0x2A], &signal("Count", 0, 8)).unwrap();
    assert_eq!(count.value, SignalValue::Integer(42));
    let mut shifted = signal("Shifted", 0, 1);
    shifted.offset = Scalar::from_bits((-40.0f64).to_bits());
    let decoded = MessageDecoder::decode_signal(&[0x01], &shifted).unwrap();
    assert_eq!(physical(&decoded.value), -39.0);
    let mut whole = signal("Whole", 0, 8);
    whole.factor = Scalar::whole(1);
    whole.offset = Scalar::from_bits((-0.0f64).to_bits());
    let decoded = MessageDecoder::decode_signal(&[7], &whole).unwrap();
    assert_eq!(decoded.value, SignalValue::Integer(7));
}

#[test]
fn label_of_a_raw_value() {
    let mut s = signal("Gear", 0, 8);
    let mut table = HashMap::new();
    table.insert(0i64, "Park".to_string());
    table.insert(1i64, "Drive".to_string());
    s.value_table = Some(table);
    let decoded = MessageDecoder::decode_signal(&[1], &s).unwrap();
    assert_eq!(decoded.value_description, Some("Drive".to_string()));
    let decoded = MessageDecoder::decode_signal(&[9], &s).unwrap();
    assert_eq!(decoded.value_description, None);
}

#[test]
fn multiplexer_gate() {
    let message = multiplexed_message();
    let event = MessageDecoder::decode_message(
        &frame(vec![0x00, 0x22, 0x11, 0, 0, 0, 0, 0]),
        &message,
    )
    .unwrap();
    match event {
        DecodedEvent::Message { signals, multiplexer_value, is_multiplexed, .. } => {
            let names: Vec<&str> = signals.iter().map(|s| s.name.as_str()).collect();
            assert_eq!(names, vec!["Mode", "SignalA"]);
            assert_eq!(signals[0].raw_value, 0);
            assert_eq!(signals[1].raw_value, 0x1122);
            assert_eq!(multiplexer_value, Some(0));
            assert!(is_multiplexed);
        }
        _ => panic!("expected a message"),
    }
    let event = MessageDecoder::decode_message(
        &frame(vec![0x01, 0x22, 0x11, 0, 0, 0, 0, 0]),
        &message,
    )
    .unwrap();
    match event {
        DecodedEvent::Message { signals, multiplexer_value, .. } => {
            let names: Vec<&str> = signals.iter().map(|s| s.name.as_str()).collect();
            assert_eq!(names, vec!["Mode", "SignalB"]);
            assert_eq!(signals[1].raw_value, 0x1122);
            assert_eq!(multiplexer_value, Some(1));
        }
        _ => panic!("expected a message"),
    }
}

#[test]
fn unknown_selector_shows_only_ungated_signals() {
    let event = MessageDecoder::decode_message(
        &frame(vec![0x07, 0x22, 0x11, 0, 0, 0, 0, 0]),
        &multiplexed_message(),
    )
    .unwrap();
    match event {
        DecodedEvent::Message { signals, .. } => {
            assert_eq!(signals.len(), 1);
            assert_eq!(signals[0].name, "Mode");
        }
        _ => panic!("expected a message"),
    }
}

#[test]
fn message_event_carries_the_frame_and_the_definition() {
    let event = MessageDecoder::decode_message(
        &frame(vec![0x01, 0x22, 0x11, 0, 0, 0, 0, 0]),
        &multiplexed_message(),
    )
    .unwrap();
    assert_eq!(event.timestamp(), 5_000);
    assert_eq!(event.channel(), Some(2));
    assert_eq!(event.can_id(), Some(0x200));
    match event {
        DecodedEvent::Message { message_name, sender, .. } => {
            assert_eq!(message_name, Some("MultiplexedMsg".to_string()));
            assert_eq!(sender, Some("ECU1".to_string()));
        }
        _ => panic!("expected a message"),
    }
}

#[test]
fn no_event_without_a_decoded_signal() {
    let message = multiplexed_message();
    assert!(MessageDecoder::decode_message(&frame(vec![]), &message).is_none());
    let mut empty = multiplexed_message();
    empty.signals.clear();
    assert!(MessageDecoder::decode_message(&frame(vec![1, 2, 3]), &empty).is_none());
}

#[test]
fn every_event_has_a_signal() {
    let message = multiplexed_message();
    for len in 0..4usize {
        let data: Vec<u8> = (0..len as u8).collect();
        if let Some(DecodedEvent::Message { signals, .. }) =
            MessageDecoder::decode_message(&frame(data), &message)
        {
            assert!(!signals.is_empty());
        }
    }
}

#[test]
fn contained_pdu_is_decoded_on_channel_zero() {
    let message = multiplexed_message();
    let event = MessageDecoder::decode_pdu_data(&[0x00, 0x22, 0x11], &message, 77).unwrap();
    assert_eq!(event.timestamp(), 77);
    assert_eq!(event.channel(), Some(0));
    assert_eq!(event.can_id(), Some(0x200));
}

#[test]
fn written_signal_reads_back() {
    let cases: [(usize, usize, u64); 8] = [
        (0, 8, 0xAB),
        (3, 5, 0x15),
        (4, 12, 0xABC),
        (7, 1, 1),
        (9, 16, 0x8001),
        (0, 64, 0xFEDC_BA98_7654_3210),
        (13, 33, 0x1_2345_6789),
        (20, 0, 0),
    ];
    for (start, length, value) in cases {
        let mut data = vec![0x5A; 8];
        MessageDecoder::insert_little_endian(&mut data, start, length, value);
        assert_eq!(data.len(), 8);
        assert_eq!(MessageDecoder::extract_little_endian(&data, start, length), value);
        let mut data = vec![0xA5; 8];
        MessageDecoder::insert_big_endian(&mut data, start, length, value);
        assert_eq!(MessageDecoder::extract_big_endian(&data, start, length), value);
    }
}

#[test]
fn writing_a_signal_leaves_the_other_bits() {
    let mut data = vec![0xFF, 0xFF, 0xFF];
    MessageDecoder::insert_little_endian(&mut data, 4, 8, 0x00);
    assert_eq!(data, vec![0x0F, 0xF0, 0xFF]);
    let mut data = vec![0x00, 0x00, 0x00];
    MessageDecoder::insert_big_endian(&mut data, 4, 8, 0xFF);
    assert_eq!(data, vec![0x0F, 0xF0, 0x00]);
    let mut data = vec![0x00, 0x00];
    MessageDecoder::insert_big_endian(&mut data, 0, 16, 0x1234);
    assert_eq!(data, vec![0x12, 0x34]);
    MessageDecoder::insert_little_endian(&mut data, 0, 16, 0x1234);
    assert_eq!(data, vec![0x34, 0x12]);
    // Bits beyond the payload are dropped.
    let mut data = vec![0x00];
    MessageDecoder::insert_little_endian(&mut data, 4, 8, 0xFF);
    assert_eq!(data, vec![0xF0]);
}

#[test]
fn scalars_are_tested_for_one_zero_and_finiteness() {
    assert!(Scalar::whole(1).is_one());
    assert!(!Scalar::whole(0).is_one());
    assert!(Scalar::from_bits(1.0f64.to_bits()).is_one());
    assert!(!Scalar::from_bits(1.0000001f64.to_bits()).is_one());
    assert!(!Scalar::from_bits(f64::NAN.to_bits()).is_one());
    assert!(Scalar::whole(0).is_zero());
    assert!(Scalar::from_bits(0.0f64.to_bits()).is_zero());
    assert!(Scalar::from_bits((-0.0f64).to_bits()).is_zero());
    assert!(!Scalar::from_bits(f64::MIN_POSITIVE.to_bits()).is_zero());
    assert!(!Scalar::from_bits(f64::NAN.to_bits()).is_zero());
    assert!(Scalar::whole(u64::MAX).is_finite());
    assert!(Scalar::from_bits(f64::MAX.to_bits()).is_finite());
    assert!(!Scalar::from_bits(f64::INFINITY.to_bits()).is_finite());
    assert!(!Scalar::from_bits(f64::NEG_INFINITY.to_bits()).is_finite());
    assert!(!Scalar::from_bits(f64::NAN.to_bits()).is_finite());
    assert_eq!(Scalar::whole(7), Scalar::Whole(7));
    assert_eq!(Scalar::from_bits(7), Scalar::Double(7));
}
