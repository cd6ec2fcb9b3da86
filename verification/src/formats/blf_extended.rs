//! The header of a BLF object and the CAN-FD message objects.

use vstd::prelude::*;
use vstd::slice::{slice_subrange, slice_to_vec};
use vstd::string::StringExecFns;
use crate::formats::bytes::{le_u16_at, le_u32_at, read_u16, read_u32};
use crate::types::{CanFrame, CanFrameView, DecoderError};

verus! {

/// The number of bytes that open every object: the tag and sizes, then
/// flags, client index, version and time.
pub const OBJECT_HEADER_LEN: usize = 32;

/// The number of bytes of a CAN-FD message behind the object header: 20 of
/// fields and 64 of payload.
pub const CANFD_BODY_LEN: usize = 84;

/// Whether bytes begin with the tag of an object, `LOBJ`.
pub open spec fn has_object_tag(data: Seq<u8>, at: int) -> bool {
    data[at] == 0x4C && data[at + 1] == 0x4F && data[at + 2] == 0x42 && data[at + 3] == 0x4A
}

/// The head of a BLF object.
#[derive(Debug, Clone, Copy, PartialEq, Eq)]
pub struct ObjectHeader {
    /// The tag, `LOBJ`.
    pub signature: [u8; 4],
    /// Size of the header.
    pub header_size: u16,
    /// Version of the header.
    pub header_version: u16,
    /// Size of the object, its first 16 bytes included.
    pub object_size: u32,
    /// Kind of the object.
    pub object_type: u32,
}

impl ObjectHeader {
    /// Reads the head of an object from the 32 bytes that open it. Fewer
    /// bytes, and bytes that do not begin with `LOBJ`, are refused with
    /// `LogParseError`.
    pub fn parse(data: &[u8]) -> (r: Result<ObjectHeader, DecoderError>)
        ensures
            r.is_ok() == (data@.len() >= OBJECT_HEADER_LEN && has_object_tag(data@, 0)),
            r matches Err(e) ==> e matches DecoderError::LogParseError(text) && text@ == if data@.len()
                < OBJECT_HEADER_LEN {
                "Object header is cut short"@
            } else {
                "Invalid object signature"@
            },
            r matches Ok(h) ==> h.signature@ == data@.subrange(0, 4) && h.header_size == le_u16_at(
                data@,
                4,
            ) && h.header_version == le_u16_at(data@, 6) && h.object_size == le_u32_at(data@, 8)
                && h.object_type == le_u32_at(data@, 12),
    {
        if data.len() < OBJECT_HEADER_LEN {
            return Err(DecoderError::LogParseError(String::from_str("Object header is cut short")));
        }
        let signature: [u8; 4] = [data[0], data[1], data[2], data[3]];
        if !(data[0] == 0x4C && data[1] == 0x4F && data[2] == 0x42 && data[3] == 0x4A) {
            return Err(DecoderError::LogParseError(String::from_str("Invalid object signature")));
        }
        assert(signature@ =~= data@.subrange(0, 4));
        Ok(
            ObjectHeader {
                signature,
                header_size: read_u16(data, 4),
                header_version: read_u16(data, 6),
                object_size: read_u32(data, 8),
                object_type: read_u32(data, 12),
            },
        )
    }
}

/// A CAN-FD message object.
#[derive(Debug, Clone, PartialEq, Eq)]
pub struct CanFdMessage {
    /// Channel, counted from one.
    pub channel: u16,
    /// Flags; bit 7 marks a remote frame.
    pub flags: u8,
    /// Data length code.
    pub dlc: u8,
    /// Identifier; bit 31 marks an extended identifier.
    pub can_id: u32,
    /// Duration of the frame in nanoseconds.
    pub frame_length_ns: u32,
    /// Number of bits of the frame.
    pub bit_count: u8,
    /// CAN-FD flags; bit 0 marks a CAN-FD frame.
    pub fd_flags: u8,
    /// Number of payload bytes that count.
    pub valid_data_bytes: u8,
    /// The 64 bytes of the payload field.
    pub data: [u8; 64],
    /// Time of the object.
    pub timestamp_ns: u64,
}

/// What a [`CanFdMessage`] is, as mathematical values.
pub struct CanFdMessageView {
    pub channel: u16,
    pub flags: u8,
    pub dlc: u8,
    pub can_id: u32,
    pub frame_length_ns: u32,
    pub bit_count: u8,
    pub fd_flags: u8,
    pub valid_data_bytes: u8,
    pub data: Seq<u8>,
    pub timestamp_ns: u64,
}

impl View for CanFdMessage {
    type V = CanFdMessageView;

    open spec fn view(&self) -> CanFdMessageView {
        CanFdMessageView {
            channel: self.channel,
            flags: self.flags,
            dlc: self.dlc,
            can_id: self.can_id,
            frame_length_ns: self.frame_length_ns,
            bit_count: self.bit_count,
            fd_flags: self.fd_flags,
            valid_data_bytes: self.valid_data_bytes,
            data: self.data@,
            timestamp_ns: self.timestamp_ns,
        }
    }
}

/// The CAN-FD message that the 84 bytes from an offset on hold.
pub open spec fn canfd_message_at(data: Seq<u8>, at: int, timestamp_ns: u64) -> CanFdMessageView {
    CanFdMessageView {
        channel: le_u16_at(data, at),
        flags: data[at + 2],
        dlc: data[at + 3],
        can_id: le_u32_at(data, at + 4),
        frame_length_ns: le_u32_at(data, at + 8),
        bit_count: data[at + 12],
        fd_flags: data[at + 13],
        valid_data_bytes: data[at + 14],
        data: data.subrange(at + 20, at + 84),
        timestamp_ns,
    }
}

/// The frame of a CAN-FD message: its first `valid_data_bytes` payload
/// bytes, 64 at most; the channel counted from zero; the identifier without
/// its flag bits.
pub open spec fn canfd_frame(message: CanFdMessageView) -> CanFrameView {
    CanFrameView {
        timestamp_ns: message.timestamp_ns,
        channel: if message.channel > 0 {
            ((message.channel - 1) % 0x100) as u8
        } else {
            0
        },
        can_id: message.can_id & 0x1FFF_FFFF,
        data: message.data.take(
            if message.valid_data_bytes < 64 {
                message.valid_data_bytes as int
            } else {
                64
            },
        ),
        is_extended: message.can_id & 0x8000_0000 != 0,
        is_fd: message.fd_flags & 0x01 != 0,
        is_error_frame: false,
        is_remote_frame: message.flags & 0x80 != 0,
    }
}

impl CanFdMessage {
    /// Reads a CAN-FD message from the 84 bytes behind the object header.
    /// Fewer bytes are refused with `LogParseError`.
    pub fn parse(data: &[u8], timestamp_ns: u64) -> (r: Result<CanFdMessage, DecoderError>)
        ensures
            r.is_ok() == (data@.len() >= CANFD_BODY_LEN),
            r matches Err(e) ==> e matches DecoderError::LogParseError(text) && text@
                == "CAN-FD message is cut short"@,
            r matches Ok(m) ==> m@ == canfd_message_at(data@, 0, timestamp_ns),
    {
        if data.len() < CANFD_BODY_LEN {
            return Err(DecoderError::LogParseError(String::from_str("CAN-FD message is cut short")));
        }
        let mut payload: [u8; 64] = [0u8; 64];
        let mut i: usize = 0;
        while i < 64
            invariant
                i <= 64,
                data@.len() >= CANFD_BODY_LEN,
                forall|j: int| 0 <= j < i ==> payload@[j] == data@[20 + j],
            decreases 64 - i,
        {
            payload[i] = data[20 + i];
            i += 1;
        }
        assert(payload@ =~= data@.subrange(20, 84));
        Ok(
            CanFdMessage {
                channel: read_u16(data, 0),
                flags: data[2],
                dlc: data[3],
                can_id: read_u32(data, 4),
                frame_length_ns: read_u32(data, 8),
                bit_count: data[12],
                fd_flags: data[13],
                valid_data_bytes: data[14],
                data: payload,
                timestamp_ns,
            },
        )
    }

    /// The frame of the message.
    pub fn to_can_frame(&self) -> (r: CanFrame)
        ensures
            r@ == canfd_frame(self@),
    {
        let data_len: usize = if self.valid_data_bytes < 64 {
            self.valid_data_bytes as usize
        } else {
            64
        };
        let channel = self.channel;
        assert(channel > 0 ==> ((channel - 1) as u16) as u8 == (channel - 1) % 0x100) by (bit_vector);
        CanFrame {
            timestamp_ns: self.timestamp_ns,
            channel: if channel > 0 {
                #[verifier::truncate]
                ((channel - 1) as u8)
            } else {
                0
            },
            can_id: self.can_id & 0x1FFF_FFFF,
            data: slice_to_vec(slice_subrange(self.data.as_slice(), 0, data_len)),
            is_extended: (self.can_id & 0x8000_0000) != 0,
            is_fd: (self.fd_flags & 0x01) != 0,
            is_error_frame: false,
            is_remote_frame: (self.flags & 0x80) != 0,
        }
    }
}

} // verus!
