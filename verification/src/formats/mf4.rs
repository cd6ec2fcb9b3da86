//! The frames of measurement data files.
//!
//! The files themselves are read by a foreign library; what it hands over
//! for each frame, and the status it reports, are turned into frames and
//! errors here.

use vstd::prelude::*;
use vstd::slice::{slice_subrange, slice_to_vec};
use vstd::string::StringExecFns;
use crate::text::join;
use crate::types::{CanFrame, CanFrameView, DecoderError};

verus! {

/// A frame as the reader of measurement data files hands it over.
#[derive(Debug, Clone, PartialEq, Eq)]
pub struct MdfCanFrame {
    /// Time in nanoseconds.
    pub timestamp_ns: u64,
    /// Channel.
    pub channel: u8,
    /// Identifier.
    pub can_id: u32,
    /// The 64 bytes of the payload field.
    pub data: [u8; 64],
    /// Number of payload bytes that count.
    pub data_length: u8,
    /// Not zero for an extended identifier.
    pub is_extended: u8,
    /// Not zero for a CAN-FD frame.
    pub is_fd: u8,
    /// Not zero for an error frame.
    pub is_error_frame: u8,
    /// Not zero for a remote frame.
    pub is_remote_frame: u8,
}

/// The status that the reader of measurement data files reports.
#[derive(Debug, Clone, Copy, PartialEq, Eq, Structural)]
pub enum MdfError {
    NoError,
    OpenFailed,
    NotMdfFile,
    ReadFailed,
    NoCanData,
    NullHandle,
    EndOfData,
}

/// What one step of reading a measurement data file yields.
#[derive(Debug, Clone, PartialEq)]
pub enum Mf4Item {
    /// A frame.
    Frame(CanFrame),
    /// The end of the file.
    End,
    /// A failure, after which nothing more is read.
    Failed(DecoderError),
}

impl MdfCanFrame {
    /// The frame that is handed over: the first `data_length` bytes of the
    /// payload field, and each flag set where its byte is not zero.
    pub open spec fn frame(&self) -> CanFrameView {
        CanFrameView {
            timestamp_ns: self.timestamp_ns,
            channel: self.channel,
            can_id: self.can_id,
            data: self.data@.take(self.data_length as int),
            is_extended: self.is_extended != 0,
            is_fd: self.is_fd != 0,
            is_error_frame: self.is_error_frame != 0,
            is_remote_frame: self.is_remote_frame != 0,
        }
    }

    /// Converts what was handed over into a frame; nothing where more
    /// payload bytes are claimed than the field holds.
    pub fn to_can_frame(&self) -> (r: Option<CanFrame>)
        ensures
            r.is_some() == (self.data_length <= 64),
            r matches Some(f) ==> f@ == self.frame(),
    {
        if self.data_length > 64 {
            return None;
        }
        Some(
            CanFrame {
                timestamp_ns: self.timestamp_ns,
                channel: self.channel,
                can_id: self.can_id,
                data: slice_to_vec(
                    slice_subrange(self.data.as_slice(), 0, self.data_length as usize),
                ),
                is_extended: self.is_extended != 0,
                is_fd: self.is_fd != 0,
                is_error_frame: self.is_error_frame != 0,
                is_remote_frame: self.is_remote_frame != 0,
            },
        )
    }
}

/// Turns the status of one step of reading, with the frame handed over and
/// the reader's message, into what the step yields: a frame for `NoError`, the
/// end for `EndOfData`, and a failure with `LogParseError` for any other
/// status and for a frame that claims more payload than it can hold.
pub fn mf4_item(status: MdfError, frame: &MdfCanFrame, message: &str) -> (r: Mf4Item)
    ensures
        match r {
            Mf4Item::Frame(f) => status == MdfError::NoError && frame.data_length <= 64 && f@
                == frame.frame(),
            Mf4Item::End => status == MdfError::EndOfData,
            Mf4Item::Failed(e) => status != MdfError::EndOfData && (status == MdfError::NoError
                ==> frame.data_length > 64) && (e matches DecoderError::LogParseError(text)
                && text@ == if status == MdfError::NoError {
                "CAN frame claims too many bytes"@
            } else {
                "Error reading CAN frame: "@ + message@
            }),
        },
{
    match status {
        MdfError::NoError => match frame.to_can_frame() {
            Some(f) => Mf4Item::Frame(f),
            None => Mf4Item::Failed(
                DecoderError::LogParseError(String::from_str("CAN frame claims too many bytes")),
            ),
        },
        MdfError::EndOfData => Mf4Item::End,
        _ => Mf4Item::Failed(
            DecoderError::LogParseError(join("Error reading CAN frame: ", message)),
        ),
    }
}

} // verus!
