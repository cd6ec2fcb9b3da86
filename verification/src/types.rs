//! The values that decoding produces: raw frames, decoded events and errors.

use vstd::prelude::*;
use crate::scalar::Scalar;

verus! {

/// Nanoseconds since the start of the measurement.
pub type Timestamp = u64;

/// A raw CAN frame as a trace file holds it.
#[derive(Debug, Clone, PartialEq)]
pub struct CanFrame {
    /// Nanoseconds since the start of the measurement.
    pub timestamp_ns: u64,
    /// Channel number, counted from zero.
    pub channel: u8,
    /// The 11-bit or 29-bit identifier.
    pub can_id: u32,
    /// Payload: up to 8 bytes for classic CAN, up to 64 for CAN-FD.
    pub data: Vec<u8>,
    /// The identifier is a 29-bit one.
    pub is_extended: bool,
    /// The frame is a CAN-FD frame.
    pub is_fd: bool,
    /// The frame reports a bus error.
    pub is_error_frame: bool,
    /// The frame is a remote request.
    pub is_remote_frame: bool,
}

/// What a [`CanFrame`] is, as mathematical values.
pub struct CanFrameView {
    pub timestamp_ns: u64,
    pub channel: u8,
    pub can_id: u32,
    pub data: Seq<u8>,
    pub is_extended: bool,
    pub is_fd: bool,
    pub is_error_frame: bool,
    pub is_remote_frame: bool,
}

impl View for CanFrame {
    type V = CanFrameView;

    open spec fn view(&self) -> CanFrameView {
        CanFrameView {
            timestamp_ns: self.timestamp_ns,
            channel: self.channel,
            can_id: self.can_id,
            data: self.data@,
            is_extended: self.is_extended,
            is_fd: self.is_fd,
            is_error_frame: self.is_error_frame,
            is_remote_frame: self.is_remote_frame,
        }
    }
}

impl CanFrame {
    /// The time of the frame, which every event decoded from it carries.
    pub fn timestamp(&self) -> (r: Timestamp)
        ensures
            r == self.timestamp_ns,
    {
        self.timestamp_ns
    }

    /// The number of payload bytes.
    pub fn dlc(&self) -> (r: usize)
        ensures
            r == self.data@.len(),
    {
        self.data.len()
    }
}

/// The three layouts of a container frame.
#[derive(Debug, Clone, Copy, PartialEq, Eq, Structural)]
pub enum ContainerType {
    /// The same PDUs at the same positions in every frame.
    Static,
    /// Each contained PDU is preceded by a header naming it.
    Dynamic,
    /// Instances of one PDU, one after the other.
    Queued,
}

impl ContainerType {
    /// The name of the layout: `Static`, `Dynamic` or `Queued`.
    pub fn name(&self) -> (r: &'static str)
        ensures
            r@ == match *self {
                ContainerType::Static => "Static"@,
                ContainerType::Dynamic => "Dynamic"@,
                ContainerType::Queued => "Queued"@,
            },
    {
        match self {
            ContainerType::Static => "Static",
            ContainerType::Dynamic => "Dynamic",
            ContainerType::Queued => "Queued",
        }
    }
}

/// A PDU cut out of a container frame, before any signal is decoded.
#[derive(Debug, Clone, PartialEq)]
pub struct ContainedPdu {
    /// Identifier of the PDU.
    pub pdu_id: u32,
    /// Name of the PDU.
    pub name: String,
    /// The bytes of the PDU.
    pub data: Vec<u8>,
}

/// What a [`ContainedPdu`] is, as mathematical values.
pub struct ContainedPduView {
    pub pdu_id: u32,
    pub name: Seq<char>,
    pub data: Seq<u8>,
}

impl View for ContainedPdu {
    type V = ContainedPduView;

    open spec fn view(&self) -> ContainedPduView {
        ContainedPduView { pdu_id: self.pdu_id, name: self.name@, data: self.data@ }
    }
}

/// A physical value `offset + factor * raw`, held as its three parts.
///
/// The sum is meant in binary64 arithmetic and is left to the caller to
/// evaluate.
#[derive(Debug, Clone, Copy, PartialEq, Eq, Structural)]
pub struct PhysicalValue {
    /// The raw value, after sign handling.
    pub raw: i64,
    /// The scale factor.
    pub factor: Scalar,
    /// The offset.
    pub offset: Scalar,
}

/// The value of a decoded signal.
#[derive(Debug, Clone, Copy, PartialEq, Eq, Structural)]
pub enum SignalValue {
    /// An unscaled integer.
    Integer(i64),
    /// A scaled value.
    Float(PhysicalValue),
    /// A single unscaled bit.
    Boolean(bool),
}

/// A decoded signal.
#[derive(Debug, Clone, PartialEq)]
pub struct DecodedSignal {
    /// Name of the signal.
    pub name: String,
    /// The decoded value.
    pub value: SignalValue,
    /// Engineering unit, where the definition has one.
    pub unit: Option<String>,
    /// Label of the raw value, where the definition's table has one.
    pub value_description: Option<String>,
    /// The raw value, after sign handling and before scaling.
    pub raw_value: i64,
}

/// What a [`DecodedSignal`] is, as mathematical values.
pub struct DecodedSignalView {
    pub name: Seq<char>,
    pub value: SignalValue,
    pub unit: Option<Seq<char>>,
    pub value_description: Option<Seq<char>>,
    pub raw_value: i64,
}

/// The characters of an optional string.
pub open spec fn option_text(s: Option<String>) -> Option<Seq<char>> {
    match s {
        Some(t) => Some(t@),
        None => None,
    }
}

impl View for DecodedSignal {
    type V = DecodedSignalView;

    open spec fn view(&self) -> DecodedSignalView {
        DecodedSignalView {
            name: self.name@,
            value: self.value,
            unit: option_text(self.unit),
            value_description: option_text(self.value_description),
            raw_value: self.raw_value,
        }
    }
}

/// The views of a sequence of decoded signals.
pub open spec fn signal_views(signals: Seq<DecodedSignal>) -> Seq<DecodedSignalView> {
    signals.map_values(|s: DecodedSignal| s@)
}

/// The views of a sequence of contained PDUs.
pub open spec fn pdu_views(pdus: Seq<ContainedPdu>) -> Seq<ContainedPduView> {
    pdus.map_values(|p: ContainedPdu| p@)
}

/// A message found inside a container frame, with its signals decoded.
#[derive(Debug, Clone, PartialEq)]
pub struct ContainedMessage {
    /// Identifier of the PDU.
    pub pdu_id: u32,
    /// Name of the PDU.
    pub pdu_name: Option<String>,
    /// The decoded signals.
    pub signals: Vec<DecodedSignal>,
    /// The PDU has signals gated by a multiplexer.
    pub is_multiplexed: bool,
    /// The multiplexer's value in this PDU.
    pub multiplexer_value: Option<u64>,
}

/// One decoded event.
#[derive(Debug, Clone, PartialEq)]
pub enum DecodedEvent {
    /// A message with its decoded signals.
    Message {
        timestamp: Timestamp,
        channel: u8,
        can_id: u32,
        message_name: Option<String>,
        sender: Option<String>,
        signals: Vec<DecodedSignal>,
        is_multiplexed: bool,
        multiplexer_value: Option<u64>,
    },
    /// A reassembled transport-protocol message.
    CanTpMessage {
        timestamp: Timestamp,
        channel: u8,
        source_addr: u32,
        target_addr: u32,
        payload: Vec<u8>,
        payload_length: usize,
    },
    /// A container frame with the PDUs found in it.
    ContainerPdu {
        timestamp: Timestamp,
        container_id: u32,
        container_name: String,
        container_type: ContainerType,
        contained_pdus: Vec<ContainedPdu>,
    },
    /// A frame for which no definition decodes anything.
    RawFrame {
        timestamp: Timestamp,
        channel: u8,
        can_id: u32,
        data: Vec<u8>,
        is_fd: bool,
    },
}

/// What a [`DecodedEvent`] is, as mathematical values.
pub enum DecodedEventView {
    Message {
        timestamp: Timestamp,
        channel: u8,
        can_id: u32,
        message_name: Option<Seq<char>>,
        sender: Option<Seq<char>>,
        signals: Seq<DecodedSignalView>,
        is_multiplexed: bool,
        multiplexer_value: Option<u64>,
    },
    CanTpMessage {
        timestamp: Timestamp,
        channel: u8,
        source_addr: u32,
        target_addr: u32,
        payload: Seq<u8>,
        payload_length: usize,
    },
    ContainerPdu {
        timestamp: Timestamp,
        container_id: u32,
        container_name: Seq<char>,
        container_type: ContainerType,
        contained_pdus: Seq<ContainedPduView>,
    },
    RawFrame {
        timestamp: Timestamp,
        channel: u8,
        can_id: u32,
        data: Seq<u8>,
        is_fd: bool,
    },
}

impl View for DecodedEvent {
    type V = DecodedEventView;

    open spec fn view(&self) -> DecodedEventView {
        match *self {
            DecodedEvent::Message {
                timestamp,
                channel,
                can_id,
                message_name,
                sender,
                signals,
                is_multiplexed,
                multiplexer_value,
            } => DecodedEventView::Message {
                timestamp,
                channel,
                can_id,
                message_name: option_text(message_name),
                sender: option_text(sender),
                signals: signal_views(signals@),
                is_multiplexed,
                multiplexer_value,
            },
            DecodedEvent::CanTpMessage {
                timestamp,
                channel,
                source_addr,
                target_addr,
                payload,
                payload_length,
            } => DecodedEventView::CanTpMessage {
                timestamp,
                channel,
                source_addr,
                target_addr,
                payload: payload@,
                payload_length,
            },
            DecodedEvent::ContainerPdu {
                timestamp,
                container_id,
                container_name,
                container_type,
                contained_pdus,
            } => DecodedEventView::ContainerPdu {
                timestamp,
                container_id,
                container_name: container_name@,
                container_type,
                contained_pdus: pdu_views(contained_pdus@),
            },
            DecodedEvent::RawFrame { timestamp, channel, can_id, data, is_fd } => {
                DecodedEventView::RawFrame { timestamp, channel, can_id, data: data@, is_fd }
            },
        }
    }
}

impl DecodedEventView {
    /// The time of the event.
    pub open spec fn timestamp(self) -> Timestamp {
        match self {
            DecodedEventView::Message { timestamp, .. } => timestamp,
            DecodedEventView::CanTpMessage { timestamp, .. } => timestamp,
            DecodedEventView::ContainerPdu { timestamp, .. } => timestamp,
            DecodedEventView::RawFrame { timestamp, .. } => timestamp,
        }
    }
}

impl DecodedEvent {
    /// The time of the event: that of the frame it was decoded from.
    pub fn timestamp(&self) -> (r: Timestamp)
        ensures
            r == self@.timestamp(),
    {
        match self {
            DecodedEvent::Message { timestamp, .. } => *timestamp,
            DecodedEvent::CanTpMessage { timestamp, .. } => *timestamp,
            DecodedEvent::ContainerPdu { timestamp, .. } => *timestamp,
            DecodedEvent::RawFrame { timestamp, .. } => *timestamp,
        }
    }

    /// The channel of the event; a container event has none.
    pub fn channel(&self) -> (r: Option<u8>)
        ensures
            r == match self@ {
                DecodedEventView::Message { channel, .. } => Some(channel),
                DecodedEventView::CanTpMessage { channel, .. } => Some(channel),
                DecodedEventView::ContainerPdu { .. } => None::<u8>,
                DecodedEventView::RawFrame { channel, .. } => Some(channel),
            },
    {
        match self {
            DecodedEvent::Message { channel, .. } => Some(*channel),
            DecodedEvent::CanTpMessage { channel, .. } => Some(*channel),
            DecodedEvent::ContainerPdu { .. } => None,
            DecodedEvent::RawFrame { channel, .. } => Some(*channel),
        }
    }

    /// The CAN identifier of the event; a transport-protocol message has none.
    pub fn can_id(&self) -> (r: Option<u32>)
        ensures
            r == match self@ {
                DecodedEventView::Message { can_id, .. } => Some(can_id),
                DecodedEventView::ContainerPdu { container_id, .. } => Some(container_id),
                DecodedEventView::RawFrame { can_id, .. } => Some(can_id),
                DecodedEventView::CanTpMessage { .. } => None::<u32>,
            },
    {
        match self {
            DecodedEvent::Message { can_id, .. } => Some(*can_id),
            DecodedEvent::ContainerPdu { container_id, .. } => Some(*container_id),
            DecodedEvent::RawFrame { can_id, .. } => Some(*can_id),
            DecodedEvent::CanTpMessage { .. } => None,
        }
    }
}

/// The ways decoding can fail.
#[derive(Debug, Clone, PartialEq)]
pub enum DecoderError {
    /// A trace file could not be parsed.
    LogParseError(String),
    /// A DBC file could not be parsed.
    DbcParseError(String),
    /// An ARXML file could not be parsed.
    ArxmlParseError(String),
    /// No signal of that name.
    SignalNotFound(String),
    /// No message with that identifier.
    MessageNotFound(u32),
    /// A signal definition that cannot be used.
    InvalidSignalDefinition(String),
    /// Data that do not fit their description.
    InvalidData(String),
    /// Reading or writing failed.
    IoError(String),
    /// Any other failure.
    Unknown(String),
}

impl DecoderError {
    /// What the error says: what failed, then the detail that the error
    /// holds. The identifier of a message that was not found is written in
    /// upper-case hexadecimal.
    pub open spec fn text(self) -> Seq<char> {
        match self {
            DecoderError::LogParseError(m) => "Failed to parse log file: "@ + m@,
            DecoderError::DbcParseError(m) => "Failed to parse DBC file: "@ + m@,
            DecoderError::ArxmlParseError(m) => "Failed to parse ARXML file: "@ + m@,
            DecoderError::SignalNotFound(m) => "Signal not found: "@ + m@,
            DecoderError::MessageNotFound(id) => "Message not found: CAN ID 0x"@
                + crate::text::hex_digits(id as nat),
            DecoderError::InvalidSignalDefinition(m) => "Invalid signal definition: "@ + m@,
            DecoderError::InvalidData(m) => "Invalid data: "@ + m@,
            DecoderError::IoError(m) => "IO error: "@ + m@,
            DecoderError::Unknown(m) => "Unknown error: "@ + m@,
        }
    }

    /// Writes out what the error says.
    pub fn message(&self) -> (r: String)
        ensures
            r@ == self.text(),
    {
        match self {
            DecoderError::LogParseError(m) => crate::text::join(
                "Failed to parse log file: ",
                m.as_str(),
            ),
            DecoderError::DbcParseError(m) => crate::text::join(
                "Failed to parse DBC file: ",
                m.as_str(),
            ),
            DecoderError::ArxmlParseError(m) => crate::text::join(
                "Failed to parse ARXML file: ",
                m.as_str(),
            ),
            DecoderError::SignalNotFound(m) => crate::text::join("Signal not found: ", m.as_str()),
            DecoderError::MessageNotFound(id) => crate::text::join(
                "Message not found: CAN ID 0x",
                crate::text::hex_text(*id).as_str(),
            ),
            DecoderError::InvalidSignalDefinition(m) => crate::text::join(
                "Invalid signal definition: ",
                m.as_str(),
            ),
            DecoderError::InvalidData(m) => crate::text::join("Invalid data: ", m.as_str()),
            DecoderError::IoError(m) => crate::text::join("IO error: ", m.as_str()),
            DecoderError::Unknown(m) => crate::text::join("Unknown error: ", m.as_str()),
        }
    }
}

} // verus!
