//! Decoding of one frame against one message definition.
//!
//! A signal's raw value is cut out of the payload bit by bit, read as signed
//! or unsigned, and presented as a boolean, an integer or a scaled value.
//! A multiplexed message shows, besides its ungated signals, only those
//! whose gate the multiplexer's value opens.

use vstd::prelude::*;
use vstd::arithmetic::power2::{pow2, lemma2_to64, lemma2_to64_rest, lemma_pow2_strictly_increases};
use crate::bits::{
    as_signed, big_endian_bit, big_endian_value, lemma_big_endian_value_bound,
    lemma_cast_is_as_signed, lemma_or_bit_adds, lemma_shift_in_bit, lemma_shifted_bit,
    lemma_sign_bit, little_endian_bit, little_endian_value, sign_extended,
    with_big_endian_value, with_little_endian_value,
};
use crate::signals::database::{ByteOrder, MessageDefinition, SignalDefinition, ValueType};
use crate::types::{
    option_text, signal_views, CanFrame, DecodedEvent, DecodedEventView, DecodedSignal,
    DecodedSignalView, PhysicalValue, SignalValue, Timestamp,
};

verus! {

broadcast use vstd::std_specs::hash::group_hash_axioms;

/// Whether a signal of `length` bits from `start_bit` on can be cut out of a
/// payload of `payload_len` bytes: the length is 1 to 64 and the last bit
/// lies within the payload.
pub open spec fn signal_fits(start_bit: int, length: int, payload_len: int) -> bool {
    1 <= length <= 64 && (start_bit + length + 7) / 8 <= payload_len
}

/// The bits of a signal as the byte order of its definition arranges them.
pub open spec fn raw_bits(data: Seq<u8>, signal: SignalDefinition) -> nat {
    match signal.byte_order {
        ByteOrder::LittleEndian => little_endian_value(
            data,
            signal.start_bit as int,
            signal.length as nat,
        ),
        ByteOrder::BigEndian => big_endian_value(
            data,
            signal.start_bit as int,
            signal.length as nat,
        ),
    }
}

/// The raw value of a signal in a payload: nothing where the signal does not
/// fit, else its bits read as the value type says.
pub open spec fn signal_raw_value(data: Seq<u8>, signal: SignalDefinition) -> Option<i64> {
    if !signal_fits(signal.start_bit as int, signal.length as int, data.len() as int) {
        None
    } else {
        let bits = raw_bits(data, signal) as u64;
        Some(
            match signal.value_type {
                ValueType::Unsigned => as_signed(bits) as i64,
                ValueType::Signed => sign_extended(bits, signal.length as nat) as i64,
            },
        )
    }
}

/// How a raw value is presented: a single unscaled bit as a boolean, a value
/// with a factor other than one or an offset other than zero as a scaled
/// value, anything else as an integer.
pub open spec fn presented_value(signal: SignalDefinition, raw: i64) -> SignalValue {
    if signal.factor.is_one() && signal.offset.is_zero() {
        if signal.length == 1 {
            SignalValue::Boolean(raw != 0)
        } else {
            SignalValue::Integer(raw)
        }
    } else {
        SignalValue::Float(PhysicalValue { raw, factor: signal.factor, offset: signal.offset })
    }
}

/// The label that the definition's table gives to a raw value.
pub open spec fn value_label(signal: SignalDefinition, raw: i64) -> Option<Seq<char>> {
    match signal.value_table {
        Some(table) => if table@.contains_key(raw) {
            Some(table@[raw]@)
        } else {
            None
        },
        None => None,
    }
}

/// One signal decoded from a payload; nothing where the signal does not fit.
pub open spec fn decoded_signal(data: Seq<u8>, signal: SignalDefinition) -> Option<
    DecodedSignalView,
> {
    match signal_raw_value(data, signal) {
        Some(raw) => Some(
            DecodedSignalView {
                name: signal.name@,
                value: presented_value(signal, raw),
                unit: option_text(signal.unit),
                value_description: value_label(signal, raw),
                raw_value: raw,
            },
        ),
        None => None,
    }
}

/// The position of the first signal of that name, or the number of signals
/// where there is none.
pub open spec fn first_named(signals: Seq<SignalDefinition>, name: Seq<char>) -> int
    decreases signals.len(),
{
    if signals.len() == 0 {
        0
    } else if signals[0].name@ == name {
        0
    } else {
        1 + first_named(signals.drop_first(), name)
    }
}

/// The value of the multiplexer in a payload: that of the first signal that
/// bears the multiplexer's name, where the message is multiplexed, names its
/// multiplexer, has such a signal and the signal fits.
pub open spec fn multiplexer_value(data: Seq<u8>, message: MessageDefinition) -> Option<u64> {
    match message.multiplexer_signal {
        Some(name) => {
            let at = first_named(message.signals@, name@);
            if message.is_multiplexed && at < message.signals@.len() {
                match signal_raw_value(data, message.signals@[at]) {
                    Some(v) => Some(v as u64),
                    None => None,
                }
            } else {
                None
            }
        },
        None => None,
    }
}

/// Whether a signal is present for a value of the multiplexer: an ungated
/// signal always, a gated one where the value is among its activating ones.
pub open spec fn gate_open(signal: SignalDefinition, selector: Option<u64>) -> bool {
    match signal.multiplexer_info {
        Some(info) => match selector {
            Some(v) => info.multiplexer_values@.contains(v),
            None => false,
        },
        None => true,
    }
}

/// Whether a signal appears in the decoded message: its gate is open and it
/// fits into the payload.
pub open spec fn signal_emitted(
    data: Seq<u8>,
    signal: SignalDefinition,
    selector: Option<u64>,
) -> bool {
    gate_open(signal, selector) && decoded_signal(data, signal).is_some()
}

/// The decoded signals of a payload, in the order of their definitions.
pub open spec fn decoded_signals(
    data: Seq<u8>,
    signals: Seq<SignalDefinition>,
    selector: Option<u64>,
) -> Seq<DecodedSignalView>
    decreases signals.len(),
{
    if signals.len() == 0 {
        Seq::empty()
    } else {
        let before = decoded_signals(data, signals.drop_last(), selector);
        if signal_emitted(data, signals.last(), selector) {
            before.push(decoded_signal(data, signals.last()).unwrap())
        } else {
            before
        }
    }
}

/// The event that a payload decodes to under a message definition, for the
/// given time, channel and identifier: nothing where no signal is decoded.
pub open spec fn decoded_message(
    data: Seq<u8>,
    message: MessageDefinition,
    timestamp: Timestamp,
    channel: u8,
    can_id: u32,
) -> Option<DecodedEventView> {
    let selector = multiplexer_value(data, message);
    let signals = decoded_signals(data, message.signals@, selector);
    if signals.len() == 0 {
        None
    } else {
        Some(
            DecodedEventView::Message {
                timestamp,
                channel,
                can_id,
                message_name: Some(message.name@),
                sender: option_text(message.sender),
                signals,
                is_multiplexed: message.is_multiplexed,
                multiplexer_value: selector,
            },
        )
    }
}

/// Every signal of a decoded message stems from a definition of the message
/// whose gate is open and which fits into the payload.
pub proof fn lemma_decoded_signals_origin(
    data: Seq<u8>,
    signals: Seq<SignalDefinition>,
    selector: Option<u64>,
    k: int,
)
    requires
        0 <= k < decoded_signals(data, signals, selector).len(),
    ensures
        exists|i: int|
            0 <= i < signals.len() && signal_emitted(data, #[trigger] signals[i], selector)
                && decoded_signal(data, signals[i]) == Some(
                decoded_signals(data, signals, selector)[k],
            ),
    decreases signals.len(),
{
    let before = decoded_signals(data, signals.drop_last(), selector);
    if k < before.len() {
        lemma_decoded_signals_origin(data, signals.drop_last(), selector, k);
        let i = choose|i: int|
            0 <= i < signals.drop_last().len() && signal_emitted(
                data,
                #[trigger] signals.drop_last()[i],
                selector,
            ) && decoded_signal(data, signals.drop_last()[i]) == Some(before[k]);
        assert(signals[i] == signals.drop_last()[i]);
    } else {
        let i = signals.len() - 1;
        assert(signal_emitted(data, signals[i], selector));
    }
}

/// A decoded message shows at most one group of gated signals: any two gated
/// signals that appear in it are activated by one and the same value, that of
/// the multiplexer, so their sets of activating values are not disjoint.
pub proof fn lemma_gated_signals_share_selector(
    data: Seq<u8>,
    message: MessageDefinition,
    i: int,
    j: int,
)
    requires
        0 <= i < message.signals@.len(),
        0 <= j < message.signals@.len(),
        message.signals@[i].multiplexer_info.is_some(),
        message.signals@[j].multiplexer_info.is_some(),
        signal_emitted(data, message.signals@[i], multiplexer_value(data, message)),
        signal_emitted(data, message.signals@[j], multiplexer_value(data, message)),
    ensures
        multiplexer_value(data, message).is_some(),
        message.signals@[i].multiplexer_info.unwrap().multiplexer_values@.contains(
            multiplexer_value(data, message).unwrap(),
        ),
        message.signals@[j].multiplexer_info.unwrap().multiplexer_values@.contains(
            multiplexer_value(data, message).unwrap(),
        ),
{
}

/// Tests whether a list of activating values holds a value.
fn holds_value(values: &Vec<u64>, v: u64) -> (r: bool)
    ensures
        r == values@.contains(v),
{
    let mut i: usize = 0;
    while i < values.len()
        invariant
            i <= values.len(),
            forall|j: int| 0 <= j < i ==> values@[j] != v,
        decreases values.len() - i,
    {
        if values[i] == v {
            return true;
        }
        i += 1;
    }
    false
}

/// Finds the first signal of a name.
fn find_named(signals: &Vec<SignalDefinition>, name: &String) -> (r: usize)
    ensures
        r == first_named(signals@, name@),
        r <= signals@.len(),
{
    let mut i: usize = 0;
    assert(signals@.skip(0) =~= signals@);
    while i < signals.len()
        invariant
            i <= signals.len(),
            first_named(signals@, name@) == i + first_named(signals@.skip(i as int), name@),
        decreases signals.len() - i,
    {
        assert(signals@.skip(i as int)[0] == signals@[i as int]);
        assert(signals@.skip(i as int).drop_first() =~= signals@.skip(i + 1));
        if signals[i].name == *name {
            return i;
        }
        i += 1;
    }
    i
}

/// The decoder of single messages.
pub struct MessageDecoder;

impl MessageDecoder {
    /// Decodes a frame under a message definition.
    ///
    /// The event bears the frame's time, channel and identifier, the
    /// message's name and sender, and the signals that are present and fit,
    /// in the order of the definition. Where no signal is decoded there is
    /// no event, so an event never has an empty signal list.
    pub fn decode_message(frame: &CanFrame, message_def: &MessageDefinition) -> (r: Option<
        DecodedEvent,
    >)
        ensures
            option_event_view(r) == decoded_message(
                frame.data@,
                *message_def,
                frame.timestamp_ns,
                frame.channel,
                frame.can_id,
            ),
            r matches Some(DecodedEvent::Message { signals, .. }) ==> signals@.len() >= 1,
    {
        Self::decode_payload(
            frame.data.as_slice(),
            message_def,
            frame.timestamp_ns,
            frame.channel,
            frame.can_id,
        )
    }

    /// Decodes the bytes of a PDU found inside a container frame.
    ///
    /// The event bears the given time, channel 0 and the identifier of the
    /// message definition.
    pub fn decode_pdu_data(data: &[u8], message_def: &MessageDefinition, timestamp: Timestamp) -> (r:
        Option<DecodedEvent>)
        ensures
            option_event_view(r) == decoded_message(data@, *message_def, timestamp, 0, message_def.id),
            r matches Some(DecodedEvent::Message { signals, .. }) ==> signals@.len() >= 1,
    {
        Self::decode_payload(data, message_def, timestamp, 0, message_def.id)
    }

    fn decode_payload(
        data: &[u8],
        message_def: &MessageDefinition,
        timestamp: Timestamp,
        channel: u8,
        can_id: u32,
    ) -> (r: Option<DecodedEvent>)
        ensures
            option_event_view(r) == decoded_message(data@, *message_def, timestamp, channel, can_id),
            r matches Some(DecodedEvent::Message { signals, .. }) ==> signals@.len() >= 1,
    {
        let mut selector: Option<u64> = None;
        if message_def.is_multiplexed {
            if let Some(name) = &message_def.multiplexer_signal {
                let at = find_named(&message_def.signals, name);
                if at < message_def.signals.len() {
                    if let Some(value) = Self::extract_signal_value(data, &message_def.signals[at]) {
                        selector = Some(value as u64);
                    }
                }
            }
        }
        assert(selector == multiplexer_value(data@, *message_def));
        let mut decoded_signals: Vec<DecodedSignal> = Vec::new();
        let mut i: usize = 0;
        while i < message_def.signals.len()
            invariant
                i <= message_def.signals.len(),
                signal_views(decoded_signals@) == self::decoded_signals(
                    data@,
                    message_def.signals@.take(i as int),
                    selector,
                ),
            decreases message_def.signals.len() - i,
        {
            let signal = &message_def.signals[i];
            proof {
                let taken = message_def.signals@.take(i + 1);
                assert(taken.drop_last() =~= message_def.signals@.take(i as int));
                assert(taken.last() == *signal);
            }
            let open = match &signal.multiplexer_info {
                Some(info) => match selector {
                    Some(v) => holds_value(&info.multiplexer_values, v),
                    None => false,
                },
                None => true,
            };
            if open {
                if let Some(decoded) = Self::decode_signal(data, signal) {
                    let ghost before = decoded_signals@;
                    decoded_signals.push(decoded);
                    assert(signal_views(decoded_signals@) =~= signal_views(before).push(decoded@));
                }
            }
            i += 1;
        }
        assert(message_def.signals@.take(i as int) =~= message_def.signals@);
        if decoded_signals.len() == 0 {
            return None;
        }
        Some(
            DecodedEvent::Message {
                timestamp,
                channel,
                can_id,
                message_name: Some(message_def.name.clone()),
                sender: clone_text(&message_def.sender),
                signals: decoded_signals,
                is_multiplexed: message_def.is_multiplexed,
                multiplexer_value: selector,
            },
        )
    }

    /// Decodes one signal from a payload: its raw value, the value as it is
    /// presented, its unit and the label of the raw value.
    pub fn decode_signal(data: &[u8], signal: &SignalDefinition) -> (r: Option<DecodedSignal>)
        ensures
            option_signal_view(r) == decoded_signal(data@, *signal),
    {
        let raw_value = match Self::extract_signal_value(data, signal) {
            Some(v) => v,
            None => {
                return None;
            },
        };
        let value = if signal.factor.is_one() && signal.offset.is_zero() {
            if signal.length == 1 {
                SignalValue::Boolean(raw_value != 0)
            } else {
                SignalValue::Integer(raw_value)
            }
        } else {
            SignalValue::Float(
                PhysicalValue { raw: raw_value, factor: signal.factor, offset: signal.offset },
            )
        };
        let value_description = match &signal.value_table {
            Some(table) => match table.get(&raw_value) {
                Some(label) => Some(label.clone()),
                None => None,
            },
            None => None,
        };
        Some(
            DecodedSignal {
                name: signal.name.clone(),
                value,
                unit: clone_text(&signal.unit),
                value_description,
                raw_value,
            },
        )
    }

    /// Cuts the raw value of a signal out of a payload.
    ///
    /// A signal that does not fit into the payload, or whose length is not 1
    /// to 64 bits, has no value.
    pub fn extract_signal_value(data: &[u8], signal: &SignalDefinition) -> (r: Option<i64>)
        ensures
            r == signal_raw_value(data@, *signal),
    {
        let start_bit = signal.start_bit as usize;
        let length = signal.length as usize;
        if length < 1 || length > 64 {
            return None;
        }
        let required_bytes = ((start_bit + length) + 7) / 8;
        if required_bytes > data.len() {
            return None;
        }
        let raw_value = match signal.byte_order {
            ByteOrder::LittleEndian => Self::extract_little_endian(data, start_bit, length),
            ByteOrder::BigEndian => Self::extract_big_endian(data, start_bit, length),
        };
        let signed_value = match signal.value_type {
            ValueType::Unsigned => {
                proof {
                    lemma_cast_is_as_signed(raw_value);
                }
                #[verifier::truncate]
                (raw_value as i64)
            },
            ValueType::Signed => Self::sign_extend(raw_value, length),
        };
        Some(signed_value)
    }

    /// Extracts a little-endian (Intel) signal: bit `start_bit + i` of the
    /// payload, counted from the least significant bit of each byte, becomes
    /// bit `i` of the result. Bits beyond the payload read as zero.
    pub fn extract_little_endian(data: &[u8], start_bit: usize, length: usize) -> (r: u64)
        requires
            length <= 64,
            start_bit + length <= usize::MAX,
        ensures
            r == little_endian_value(data@, start_bit as int, length as nat),
    {
        let mut result: u64 = 0;
        let mut i: usize = 0;
        proof {
            lemma2_to64();
        }
        while i < length
            invariant
                i <= length <= 64,
                start_bit + length <= usize::MAX,
                result as nat == little_endian_value(data@, start_bit as int, i as nat),
                (result as nat) < pow2(i as nat),
            decreases length - i,
        {
            let bit_pos = start_bit + i;
            let byte_idx = bit_pos / 8;
            let bit_in_byte = (bit_pos % 8) as u8;
            assert(little_endian_value(data@, start_bit as int, (i + 1) as nat)
                == little_endian_value(data@, start_bit as int, i as nat) + little_endian_bit(
                data@,
                bit_pos as int,
            ) * pow2(i as nat));
            let bit_value: u8 = if byte_idx < data.len() {
                proof {
                    lemma_shifted_bit(data[byte_idx as int], bit_in_byte);
                }
                (data[byte_idx] >> bit_in_byte) & 0x01
            } else {
                0
            };
            proof {
                assert(bit_value as nat == little_endian_bit(data@, bit_pos as int));
                lemma_or_bit_adds(result, bit_value as u64, i as u64);
            }
            result |= (bit_value as u64) << (i as u64);
            i += 1;
        }
        result
    }

    /// Extracts a big-endian (Motorola) signal: bit `start_bit + i` of the
    /// payload, counted from the most significant bit of each byte, becomes
    /// bit `length - 1 - i` of the result. Bits beyond the payload read as
    /// zero.
    pub fn extract_big_endian(data: &[u8], start_bit: usize, length: usize) -> (r: u64)
        requires
            length <= 64,
            start_bit + length <= usize::MAX,
        ensures
            r == big_endian_value(data@, start_bit as int, length as nat),
    {
        let mut result: u64 = 0;
        let mut i: usize = 0;
        proof {
            lemma2_to64();
            lemma2_to64_rest();
        }
        while i < length
            invariant
                i <= length <= 64,
                start_bit + length <= usize::MAX,
                result as nat == big_endian_value(data@, start_bit as int, i as nat),
            decreases length - i,
        {
            let bit_pos = start_bit + i;
            let byte_idx = bit_pos / 8;
            let bit_in_byte = (7 - (bit_pos % 8)) as u8;
            let bit_value: u8 = if byte_idx < data.len() {
                proof {
                    lemma_shifted_bit(data[byte_idx as int], bit_in_byte);
                }
                (data[byte_idx] >> bit_in_byte) & 0x01
            } else {
                0
            };
            proof {
                lemma2_to64_rest();
                lemma_big_endian_value_bound(data@, start_bit as int, i as nat);
                if i < 63 {
                    lemma_pow2_strictly_increases(i as nat, 63);
                }
                lemma_shift_in_bit(result, bit_value as u64);
                assert(big_endian_value(data@, start_bit as int, (i + 1) as nat) == 2
                    * big_endian_value(data@, start_bit as int, i as nat) + big_endian_bit(
                    data@,
                    bit_pos as int,
                ));
            }
            result = (result << 1) | (bit_value as u64);
            i += 1;
        }
        result
    }

    /// Writes a little-endian (Intel) signal into a payload, the inverse of
    /// [`MessageDecoder::extract_little_endian`]: bit `i` of the value
    /// becomes bit `start_bit + i` of the payload. Bits that would lie
    /// beyond the payload are dropped, and the payload keeps its length.
    pub fn insert_little_endian(data: &mut Vec<u8>, start_bit: usize, length: usize, value: u64)
        requires
            length <= 64,
            start_bit + length <= usize::MAX,
        ensures
            final(data)@ == with_little_endian_value(
                old(data)@,
                start_bit as int,
                length as nat,
                value as nat,
            ),
    {
        let mut i: usize = 0;
        while i < length
            invariant
                i <= length <= 64,
                start_bit + length <= usize::MAX,
                data@ == with_little_endian_value(
                    old(data)@,
                    start_bit as int,
                    i as nat,
                    value as nat,
                ),
            decreases length - i,
        {
            let bit_pos = start_bit + i;
            let byte_idx = bit_pos / 8;
            let k = (bit_pos % 8) as u8;
            let shifted = value >> (i as u64);
            proof {
                vstd::bits::lemma_u64_shr_is_div(value, i as u64);
                assert(shifted & 1 == shifted % 2) by (bit_vector);
            }
            let bit = (shifted & 1) as u8;
            if byte_idx < data.len() {
                let b = data[byte_idx];
                data[byte_idx] = (b & !(1u8 << k)) | (bit << k);
            }
            i += 1;
        }
    }

    /// Writes a big-endian (Motorola) signal into a payload, the inverse of
    /// [`MessageDecoder::extract_big_endian`]: bit `length - 1 - i` of the
    /// value becomes bit `start_bit + i` of the payload. Bits that would lie
    /// beyond the payload are dropped, and the payload keeps its length.
    pub fn insert_big_endian(data: &mut Vec<u8>, start_bit: usize, length: usize, value: u64)
        requires
            length <= 64,
            start_bit + length <= usize::MAX,
        ensures
            final(data)@ == with_big_endian_value(
                old(data)@,
                start_bit as int,
                length as nat,
                value as nat,
            ),
    {
        let mut i: usize = 0;
        while i < length
            invariant
                i <= length <= 64,
                start_bit + length <= usize::MAX,
                data@ == with_big_endian_value(
                    old(data)@,
                    start_bit as int,
                    i as nat,
                    if i == 0 {
                        0
                    } else {
                        value as nat / pow2((length - i) as nat)
                    },
                ),
            decreases length - i,
        {
            let bit_pos = start_bit + i;
            let byte_idx = bit_pos / 8;
            let k = (7 - (bit_pos % 8)) as u8;
            let shifted = value >> ((length - 1 - i) as u64);
            assert(shifted & 1 == shifted % 2) by (bit_vector);
            let bit = (shifted & 1) as u8;
            proof {
                vstd::bits::lemma_u64_shr_is_div(value, (length - 1 - i) as u64);
                let e = (length - 1 - i) as nat;
                vstd::arithmetic::power2::lemma_pow2_unfold(e + 1);
                vstd::arithmetic::power2::lemma_pow2_pos(e);
                vstd::arithmetic::div_mod::lemma_div_denominator(
                    value as int,
                    pow2(e) as int,
                    2,
                );
                assert(shifted as nat / 2 == value as nat / pow2(e + 1));
                assert(with_big_endian_value(old(data)@, start_bit as int, 0, 0)
                    == with_big_endian_value(old(data)@, start_bit as int, 0, shifted as nat / 2));
            }
            if byte_idx < data.len() {
                let b = data[byte_idx];
                data[byte_idx] = (b & !(1u8 << k)) | (bit << k);
            }
            i += 1;
        }
        proof {
            lemma2_to64();
            assert(value as nat / pow2(0) == value as nat);
        }
    }

    /// Reads the low `bit_length` bits of a value as a two's complement
    /// number: where the highest of them is set, the bits above are filled
    /// with ones. With 64 bits or more the value is read as it stands.
    pub fn sign_extend(value: u64, bit_length: usize) -> (r: i64)
        requires
            bit_length >= 1,
        ensures
            r as int == sign_extended(value, bit_length as nat),
    {
        proof {
            lemma_cast_is_as_signed(value);
        }
        if bit_length >= 64 {
            return #[verifier::truncate]
            (value as i64);
        }
        proof {
            lemma_sign_bit(value, bit_length as u64);
        }
        let sign_bit = 1u64 << ((bit_length - 1) as u64);
        if (value & sign_bit) != 0 {
            let mask = !0u64 << (bit_length as u64);
            #[verifier::truncate]
            ((value | mask) as i64)
        } else {
            #[verifier::truncate]
            (value as i64)
        }
    }
}

/// The view of an optional event.
pub open spec fn option_event_view(event: Option<DecodedEvent>) -> Option<DecodedEventView> {
    match event {
        Some(e) => Some(e@),
        None => None,
    }
}

/// The view of an optional decoded signal.
pub open spec fn option_signal_view(signal: Option<DecodedSignal>) -> Option<DecodedSignalView> {
    match signal {
        Some(s) => Some(s@),
        None => None,
    }
}

/// Copies an optional string.
pub fn clone_text(text: &Option<String>) -> (r: Option<String>)
    ensures
        r == *text,
{
    match text {
        Some(t) => Some(t.clone()),
        None => None,
    }
}

} // verus!
