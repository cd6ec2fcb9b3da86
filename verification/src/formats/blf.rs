//! The reader of BLF trace files.
//!
//! A file opens with a header of 144 bytes that begins with `LOGG`. Objects
//! follow, each beginning with `LOBJ` and its size. Log containers hold
//! further objects, stored or compressed; the bytes left over at the end of
//! one container, where an object is cut in two, are put in front of the
//! next container's bytes. CAN frames are handed out one by one; objects of
//! other kinds are passed over.

use vstd::prelude::*;
use vstd::slice::{slice_subrange, slice_to_vec};
use vstd::string::StringExecFns;
use crate::formats::blf_extended::{
    canfd_frame, canfd_message_at, has_object_tag, CanFdMessage,
};
use crate::formats::bytes::{le_u16_at, le_u32_at, le_u64_at, read_u16, read_u32, read_u64};
use crate::formats::inflate::{inflate_zlib, zlib_inflated};
use crate::types::{CanFrame, CanFrameView, DecoderError};

verus! {

/// The size of the file header.
pub const FILE_HEADER_LEN: usize = 144;

/// The number of consecutive bytes that may fail to begin an object before
/// reading gives up.
pub const MAX_BAD_MAGIC: u32 = 1000;

/// A calendar date of the crate `chrono`.
#[verifier::external_type_specification]
#[verifier::external_body]
pub struct ExNaiveDate(chrono::NaiveDate);

/// A calendar date with a time of day of the crate `chrono`.
#[verifier::external_type_specification]
#[verifier::external_body]
pub struct ExNaiveDateTime(chrono::NaiveDateTime);

/// Whether a year of the Gregorian calendar is a leap year.
pub open spec fn is_leap_year(year: int) -> bool {
    year % 4 == 0 && (year % 100 != 0 || year % 400 == 0)
}

/// The number of days of a month of the Gregorian calendar; 0 for a month
/// that is none.
pub open spec fn days_in_month(year: int, month: int) -> int {
    if month == 2 {
        if is_leap_year(year) {
            29
        } else {
            28
        }
    } else if month == 4 || month == 6 || month == 9 || month == 11 {
        30
    } else if 1 <= month <= 12 {
        31
    } else {
        0
    }
}

/// Whether a day of the Gregorian calendar exists.
pub open spec fn date_exists(year: int, month: int, day: int) -> bool {
    1 <= day <= days_in_month(year, month)
}

/// Whether a time of day exists. A millisecond of 1000 to 1999 stands for a
/// leap second and exists in second 59 only.
pub open spec fn time_exists(hour: int, minute: int, second: int, milli: int) -> bool {
    0 <= hour < 24 && 0 <= minute < 60 && 0 <= second < 60 && 0 <= milli && (milli < 1000 || (
    second == 59 && milli < 2000))
}

/// The year, month and day that a date of the crate `chrono` stands for, in
/// this order: what its `year`, `month` and `day` give.
pub uninterp spec fn date_fields(date: chrono::NaiveDate) -> Seq<int>;

/// The year, month, day, hour, minute, second and millisecond that a moment
/// of the crate `chrono` stands for, in this order. The millisecond counts
/// from the start of the second and is 1000 or more within a leap second.
pub uninterp spec fn moment_fields(moment: chrono::NaiveDateTime) -> Seq<int>;

/// The date of a year, month and day, `NaiveDate::from_ymd_opt`. For the
/// years 0 to 65535, which lie within the range of the crate, there is a
/// date exactly where the day exists in the proleptic Gregorian calendar,
/// and it is the date of that year, month and day.
#[verifier::external_body]
fn calendar_date(year: i32, month: u32, day: u32) -> (r: Option<chrono::NaiveDate>)
    requires
        0 <= year <= 65535,
    ensures
        r.is_some() == date_exists(year as int, month as int, day as int),
        r matches Some(date) ==> date_fields(date) == seq![year as int, month as int, day as int],
{
    chrono::NaiveDate::from_ymd_opt(year, month, day)
}

/// A date with a time of day, `NaiveDate::and_hms_milli_opt`. There is one
/// exactly where hour, minute and second are below 24, 60 and 60 and the
/// millisecond is below 1000, or below 2000 in second 59; it is the moment
/// of that date at that hour, minute, second and millisecond.
#[verifier::external_body]
fn at_time(date: &chrono::NaiveDate, hour: u32, minute: u32, second: u32, milli: u32) -> (r: Option<
    chrono::NaiveDateTime,
>)
    ensures
        r.is_some() == time_exists(hour as int, minute as int, second as int, milli as int),
        r matches Some(moment) ==> moment_fields(moment) == date_fields(*date) + seq![
            hour as int,
            minute as int,
            second as int,
            milli as int,
        ],
{
    date.and_hms_milli_opt(hour, minute, second, milli)
}

/// The header of a BLF file.
#[derive(Debug, PartialEq, Eq)]
pub struct BlfFileStats {
    /// Size of the header, 144.
    pub stats_size: u32,
    /// Version of the writing interface.
    pub api_version: u32,
    /// Identifier of the writing application.
    pub application_id: u8,
    /// Version of the writing application.
    pub application_version: (u8, u8, u8),
    /// Size of the file.
    pub file_size: u64,
    /// Size of the objects when not compressed.
    pub uncompressed_size: u64,
    /// Number of objects.
    pub object_count: u32,
    /// Number of objects read.
    pub object_read: u32,
    /// Start of the measurement: year, month, day of week, day, hour,
    /// minute, second, millisecond.
    pub measurement_start: [u16; 8],
    /// Time of the last object, in the same form.
    pub last_object_time: [u16; 8],
}

/// Whether bytes begin with the header of a BLF file: 144 bytes at least,
/// the tag `LOGG`, and 144 as the size of the header.
pub open spec fn header_valid(data: Seq<u8>) -> bool {
    data.len() >= FILE_HEADER_LEN && data[0] == 0x4C && data[1] == 0x4F && data[2] == 0x47
        && data[3] == 0x47 && le_u32_at(data, 4) == FILE_HEADER_LEN
}

/// What is said where bytes do not begin with the header of a BLF file.
pub open spec fn header_refusal(data: Seq<u8>) -> Seq<char> {
    if data.len() < FILE_HEADER_LEN {
        "BLF file header is cut short"@
    } else if !(data[0] == 0x4C && data[1] == 0x4F && data[2] == 0x47 && data[3] == 0x47) {
        "Invalid BLF file signature"@
    } else {
        "Invalid BLF file format"@
    }
}

/// The eight 16-bit words of a time from an offset on.
pub open spec fn time_words(data: Seq<u8>, at: int) -> Seq<u16> {
    Seq::new(8, |i: int| le_u16_at(data, at + 2 * i))
}

/// Reads eight 16-bit words.
fn read_time(data: &[u8], at: usize) -> (r: [u16; 8])
    requires
        at + 16 <= data.len(),
    ensures
        r@ == time_words(data@, at as int),
{
    let r: [u16; 8] = [
        read_u16(data, at),
        read_u16(data, at + 2),
        read_u16(data, at + 4),
        read_u16(data, at + 6),
        read_u16(data, at + 8),
        read_u16(data, at + 10),
        read_u16(data, at + 12),
        read_u16(data, at + 14),
    ];
    assert(r@ =~= time_words(data@, at as int));
    r
}

impl BlfFileStats {
    /// Reads the header of a file. Bytes that do not begin with a valid
    /// header are refused with `LogParseError`.
    pub fn parse(data: &[u8]) -> (r: Result<BlfFileStats, DecoderError>)
        ensures
            r.is_ok() == header_valid(data@),
            r matches Err(e) ==> e matches DecoderError::LogParseError(text) && text@
                == header_refusal(data@),
            r matches Ok(h) ==> h.stats_size == FILE_HEADER_LEN && h.api_version == le_u32_at(
                data@,
                8,
            ) && h.application_id == data@[12] && h.application_version == (
                data@[13],
                data@[14],
                data@[15],
            ) && h.file_size == le_u64_at(data@, 16) && h.uncompressed_size == le_u64_at(data@, 24)
                && h.object_count == le_u32_at(data@, 32) && h.object_read == le_u32_at(data@, 36)
                && h.measurement_start@ == time_words(data@, 40) && h.last_object_time@
                == time_words(data@, 56),
    {
        if data.len() < FILE_HEADER_LEN {
            return Err(DecoderError::LogParseError(String::from_str("BLF file header is cut short")));
        }
        if !(data[0] == 0x4C && data[1] == 0x4F && data[2] == 0x47 && data[3] == 0x47) {
            return Err(DecoderError::LogParseError(String::from_str("Invalid BLF file signature")));
        }
        let stats_size = read_u32(data, 4);
        if stats_size != 144 {
            return Err(DecoderError::LogParseError(String::from_str("Invalid BLF file format")));
        }
        Ok(
            BlfFileStats {
                stats_size,
                api_version: read_u32(data, 8),
                application_id: data[12],
                application_version: (data[13], data[14], data[15]),
                file_size: read_u64(data, 16),
                uncompressed_size: read_u64(data, 24),
                object_count: read_u32(data, 32),
                object_read: read_u32(data, 36),
                measurement_start: read_time(data, 40),
                last_object_time: read_time(data, 56),
            },
        )
    }

    /// Whether the words of the measurement's start are a moment: year,
    /// month and day (the first, second and fourth word) a day that exists,
    /// and hour, minute, second and millisecond (the last four words) a time
    /// that exists.
    pub open spec fn starts_at_a_moment(&self) -> bool {
        let ms = self.measurement_start@;
        date_exists(ms[0] as int, ms[1] as int, ms[3] as int) && time_exists(
            ms[4] as int,
            ms[5] as int,
            ms[6] as int,
            ms[7] as int,
        )
    }

    /// The year, month, day, hour, minute, second and millisecond of the
    /// measurement's start: the words of the header but the third, which is
    /// the day of the week.
    pub open spec fn start_fields(&self) -> Seq<int> {
        let ms = self.measurement_start@;
        seq![
            ms[0] as int,
            ms[1] as int,
            ms[3] as int,
            ms[4] as int,
            ms[5] as int,
            ms[6] as int,
            ms[7] as int,
        ]
    }

    /// The start of the measurement as a date and time of the crate
    /// `chrono`: there is one exactly where the header's words are a day and
    /// a time that exist, and it is the moment that the words give.
    pub fn measurement_start_time(&self) -> (r: Option<chrono::NaiveDateTime>)
        ensures
            r.is_some() == self.starts_at_a_moment(),
            r matches Some(moment) ==> moment_fields(moment) == self.start_fields(),
    {
        let ms = &self.measurement_start;
        match calendar_date(ms[0] as i32, ms[1] as u32, ms[3] as u32) {
            Some(date) => {
                let r = at_time(&date, ms[4] as u32, ms[5] as u32, ms[6] as u32, ms[7] as u32);
                proof {
                    if let Some(moment) = r {
                        assert(moment_fields(moment) =~= self.start_fields());
                    }
                }
                r
            },
            None => None,
        }
    }

    /// Whether the objects of the file are compressed.
    pub fn is_compressed(&self) -> (r: bool)
        ensures
            r == (self.file_size != self.uncompressed_size),
    {
        self.file_size != self.uncompressed_size
    }
}

/// What stands at a position of a stream of objects.
pub enum BlfObject {
    /// Four bytes that are not the tag of an object.
    BadMagic,
    /// The stream ends before the object does, or the object is smaller
    /// than its kind allows.
    Truncated,
    /// An object that holds no CAN frame.
    Skipped { next: int },
    /// An object that holds a CAN frame.
    Frame { frame: CanFrameView, next: int },
    /// A log container.
    Container { method: u16, uncompressed_size: u32, payload: Seq<u8>, next: int },
}

/// The position of the object behind the one at `pos`: behind its bytes and
/// its padding to a multiple of four, and not behind the end of the stream.
pub open spec fn next_object(data: Seq<u8>, pos: int) -> int {
    let size = le_u32_at(data, pos + 8) as int;
    if pos + size + size % 4 > data.len() {
        data.len() as int
    } else {
        pos + size + size % 4
    }
}

/// The frame of a CAN message object (kind 86) at `pos`, of `size` bytes.
pub open spec fn can_message_frame(data: Seq<u8>, pos: int, size: int) -> CanFrameView {
    CanFrameView {
        timestamp_ns: le_u64_at(data, pos + 24),
        channel: (le_u16_at(data, pos + 32) % 0x100) as u8,
        can_id: le_u32_at(data, pos + 36),
        data: data.subrange(pos + 40, pos + size - 8),
        is_extended: data[pos + 34] & 0x02 != 0,
        is_fd: data[pos + 34] & 0x80 != 0,
        is_error_frame: false,
        is_remote_frame: data[pos + 34] & 0x04 != 0,
    }
}

/// The frame of a CAN error object (kind 73) at `pos`.
pub open spec fn error_frame(data: Seq<u8>, pos: int) -> CanFrameView {
    CanFrameView {
        timestamp_ns: le_u64_at(data, pos + 24),
        channel: (le_u16_at(data, pos + 32) % 0x100) as u8,
        can_id: le_u32_at(data, pos + 48),
        data: data.subrange(pos + 56, pos + 64),
        is_extended: false,
        is_fd: false,
        is_error_frame: true,
        is_remote_frame: false,
    }
}

/// What stands at a position of a stream of objects.
///
/// Every object opens with `LOBJ`, two 16-bit numbers, its size and its
/// kind, followed by flags, client index, version and time. Kind 10 is a log
/// container, kinds 86, 73, 100 and 101 hold CAN frames, every other kind
/// is passed over by its size.
pub open spec fn object_at(data: Seq<u8>, pos: int) -> BlfObject {
    if pos < 0 || pos + 4 > data.len() {
        BlfObject::Truncated
    } else if !has_object_tag(data, pos) {
        BlfObject::BadMagic
    } else if pos + 16 > data.len() {
        BlfObject::Truncated
    } else {
        let size = le_u32_at(data, pos + 8) as int;
        let kind = le_u32_at(data, pos + 12);
        let next = next_object(data, pos);
        if size < 16 || pos + size > data.len() {
            BlfObject::Truncated
        } else if kind == 10 {
            if size < 32 {
                BlfObject::Truncated
            } else {
                BlfObject::Container {
                    method: le_u16_at(data, pos + 16),
                    uncompressed_size: le_u32_at(data, pos + 24),
                    payload: data.subrange(pos + 32, pos + size),
                    next,
                }
            }
        } else if kind == 86 {
            if size < 48 {
                BlfObject::Truncated
            } else {
                BlfObject::Frame { frame: can_message_frame(data, pos, size), next }
            }
        } else if kind == 73 {
            if size < 64 {
                BlfObject::Truncated
            } else {
                BlfObject::Frame { frame: error_frame(data, pos), next }
            }
        } else if kind == 100 || kind == 101 {
            if size < 116 {
                BlfObject::Truncated
            } else {
                BlfObject::Frame {
                    frame: canfd_frame(canfd_message_at(data, pos + 32, le_u64_at(data, pos + 24))),
                    next,
                }
            }
        } else {
            BlfObject::Skipped { next }
        }
    }
}

/// An object with its end moved by a number of bytes.
pub open spec fn shifted(object: BlfObject, by: int) -> BlfObject {
    match object {
        BlfObject::BadMagic => BlfObject::BadMagic,
        BlfObject::Truncated => BlfObject::Truncated,
        BlfObject::Skipped { next } => BlfObject::Skipped { next: next + by },
        BlfObject::Frame { frame, next } => BlfObject::Frame { frame, next: next + by },
        BlfObject::Container { method, uncompressed_size, payload, next } => BlfObject::Container {
            method,
            uncompressed_size,
            payload,
            next: next + by,
        },
    }
}

/// Whether the bytes from a position on are too few to tell what stands
/// there: fewer than a tag, or, behind the tag of an object, fewer than the
/// object with its padding.
pub open spec fn lacks_bytes(data: Seq<u8>, pos: int) -> bool {
    pos + 4 > data.len() || (has_object_tag(data, pos) && (pos + 16 > data.len() || (le_u32_at(
        data,
        pos + 8,
    ) >= 16 && pos + le_u32_at(data, pos + 8) + le_u32_at(data, pos + 8) % 4 > data.len())))
}

/// What stands at a position does not depend on where the bytes lie in a
/// file, nor on the bytes behind them, as long as the bytes are enough to
/// tell.
pub proof fn lemma_object_in_window(before: Seq<u8>, window: Seq<u8>, behind: Seq<u8>, pos: int)
    requires
        0 <= pos <= window.len(),
        !lacks_bytes(window, pos) || behind.len() == 0,
    ensures
        object_at(before + window + behind, before.len() + pos) == shifted(
            object_at(window, pos),
            before.len() as int,
        ),
{
    let all = before + window + behind;
    let at = before.len() + pos;
    assert forall|i: int| 0 <= i < window.len() implies all[before.len() + i] == window[i] by {}
    if pos + 4 <= window.len() {
        assert(has_object_tag(all, at) == has_object_tag(window, pos));
        if has_object_tag(window, pos) && pos + 16 <= window.len() {
            let size = le_u32_at(window, pos + 8) as int;
            assert(le_u32_at(all, at + 8) == le_u32_at(window, pos + 8));
            assert(le_u32_at(all, at + 12) == le_u32_at(window, pos + 12));
            if size >= 16 && pos + size <= window.len() {
                if size >= 32 {
                    assert(le_u16_at(all, at + 16) == le_u16_at(window, pos + 16));
                    assert(le_u32_at(all, at + 24) == le_u32_at(window, pos + 24));
                    assert(all.subrange(at + 32, at + size) =~= window.subrange(
                        pos + 32,
                        pos + size,
                    ));
                }
                if size >= 48 {
                    assert(le_u64_at(all, at + 24) == le_u64_at(window, pos + 24));
                    assert(le_u16_at(all, at + 32) == le_u16_at(window, pos + 32));
                    assert(le_u32_at(all, at + 36) == le_u32_at(window, pos + 36));
                    assert(all.subrange(at + 40, at + size - 8) =~= window.subrange(
                        pos + 40,
                        pos + size - 8,
                    ));
                }
                if size >= 64 {
                    assert(le_u32_at(all, at + 48) == le_u32_at(window, pos + 48));
                    assert(all.subrange(at + 56, at + 64) =~= window.subrange(pos + 56, pos + 64));
                }
                if size >= 116 {
                    assert(canfd_message_at(all, at + 32, le_u64_at(all, at + 24)).data
                        =~= canfd_message_at(window, pos + 32, le_u64_at(window, pos + 24)).data);
                    assert(le_u16_at(all, at + 32) == le_u16_at(window, pos + 32));
                    assert(le_u32_at(all, at + 36) == le_u32_at(window, pos + 36));
                    assert(le_u32_at(all, at + 40) == le_u32_at(window, pos + 40));
                }
            }
        }
    }
}

/// The bytes of the objects in a log container: the payload itself where it
/// is stored (method 0), what it inflates to where it is compressed with
/// zlib (method 2); nothing for another method or a damaged payload.
pub open spec fn container_bytes(method: u16, uncompressed_size: u32, payload: Seq<u8>) -> Option<
    Seq<u8>,
> {
    if method == 0 {
        Some(payload)
    } else if method == 2 {
        zlib_inflated(payload, uncompressed_size as nat)
    } else {
        None
    }
}

/// Where a reader stands.
pub struct ReaderState {
    /// Position in the file.
    pub pos: int,
    /// Number of bad tags in a row in the file.
    pub bad: int,
    /// Whether the objects of a container are being read.
    pub inside: bool,
    /// The bytes of the container's objects, the tail of the container
    /// before in front.
    pub inner: Seq<u8>,
    /// Position in those bytes.
    pub inner_pos: int,
    /// Number of bad tags in a row in the container.
    pub inner_bad: int,
    /// The bytes left over by the last container.
    pub tail: Seq<u8>,
    /// Whether reading has ended.
    pub finished: bool,
}

/// The state behind an object inside a container.
pub open spec fn moved_inside(s: ReaderState, next: int, bad: int) -> ReaderState {
    ReaderState { inner_pos: next, inner_bad: bad, ..s }
}

/// The state behind an object of the file.
pub open spec fn moved(s: ReaderState, next: int, bad: int) -> ReaderState {
    ReaderState { pos: next, bad, ..s }
}

/// The state after a container has been left: what was not read of it is
/// kept as the tail.
pub open spec fn left(s: ReaderState) -> ReaderState {
    ReaderState {
        inside: false,
        tail: s.inner.skip(s.inner_pos),
        inner: Seq::empty(),
        inner_pos: 0,
        inner_bad: 0,
        ..s
    }
}

/// The state after a container has been entered.
pub open spec fn entered(s: ReaderState, next: int, bytes: Seq<u8>) -> ReaderState {
    ReaderState {
        pos: next,
        bad: 0,
        inside: true,
        inner: s.tail + bytes,
        inner_pos: 0,
        inner_bad: 0,
        tail: Seq::empty(),
        ..s
    }
}

/// The items that a reader still hands out: frames, and a failure for each
/// container whose bytes cannot be had.
///
/// Inside a container, objects are read until the bytes end or an object is
/// cut short; what is left is kept for the next container. A position that
/// does not begin an object is passed over byte by byte; after 1000 such
/// bytes in a row the container is left, and in the file reading ends.
pub open spec fn remaining(data: Seq<u8>, s: ReaderState) -> Seq<Option<CanFrameView>>
    decreases data.len() - s.pos, (if s.inside {
        1 + s.inner.len() - s.inner_pos
    } else {
        0
    }),
{
    if s.finished || s.pos < 0 || s.inner_pos < 0 || s.inner_pos > s.inner.len() {
        Seq::empty()
    } else if s.inside {
        match object_at(s.inner, s.inner_pos) {
            BlfObject::Frame { frame, next } => seq![Some(frame)] + remaining(
                data,
                moved_inside(s, next, 0),
            ),
            BlfObject::Skipped { next } => remaining(data, moved_inside(s, next, 0)),
            BlfObject::Container { next, .. } => remaining(data, moved_inside(s, next, 0)),
            BlfObject::BadMagic => if s.inner_bad + 1 > MAX_BAD_MAGIC {
                remaining(data, left(s))
            } else {
                remaining(data, moved_inside(s, s.inner_pos + 1, s.inner_bad + 1))
            },
            BlfObject::Truncated => remaining(data, left(s)),
        }
    } else {
        match object_at(data, s.pos) {
            BlfObject::Frame { frame, next } => seq![Some(frame)] + remaining(
                data,
                moved(s, next, 0),
            ),
            BlfObject::Skipped { next } => remaining(data, moved(s, next, 0)),
            BlfObject::Container { method, uncompressed_size, payload, next } => {
                match container_bytes(method, uncompressed_size, payload) {
                    Some(bytes) => remaining(data, entered(s, next, bytes)),
                    None => seq![None] + remaining(data, moved(s, next, 0)),
                }
            },
            BlfObject::BadMagic => if s.bad + 1 > MAX_BAD_MAGIC {
                Seq::empty()
            } else {
                remaining(data, moved(s, s.pos + 1, s.bad + 1))
            },
            BlfObject::Truncated => Seq::empty(),
        }
    }
}

/// The state of a reader behind the header of a file.
pub open spec fn initial_state() -> ReaderState {
    ReaderState {
        pos: FILE_HEADER_LEN as int,
        bad: 0,
        inside: false,
        inner: Seq::empty(),
        inner_pos: 0,
        inner_bad: 0,
        tail: Seq::empty(),
        finished: false,
    }
}

/// The items that the reader of a file hands out.
pub open spec fn file_frames(data: Seq<u8>) -> Seq<Option<CanFrameView>> {
    remaining(data, initial_state())
}

/// The number of payload bytes of the frames among a sequence of items.
pub open spec fn payload_bytes(items: Seq<Option<CanFrameView>>) -> nat
    decreases items.len(),
{
    if items.len() == 0 {
        0
    } else {
        payload_bytes(items.drop_first()) + match items[0] {
            Some(frame) => frame.data.len(),
            None => 0,
        }
    }
}

/// The number of bytes of objects that a reader goes through from a
/// position of the file on: the bytes of the file's own objects and of the
/// bytes passed over, and for each log container the bytes of the objects
/// it unpacks to.
pub open spec fn unpacked_from(data: Seq<u8>, pos: int, bad: int) -> nat
    decreases data.len() - pos,
{
    if pos < 0 {
        0
    } else {
        match object_at(data, pos) {
            BlfObject::Frame { next, .. } => (next - pos) as nat + unpacked_from(data, next, 0),
            BlfObject::Skipped { next } => (next - pos) as nat + unpacked_from(data, next, 0),
            BlfObject::Container { method, uncompressed_size, payload, next } => (match container_bytes(
                method,
                uncompressed_size,
                payload,
            ) {
                Some(bytes) => bytes.len(),
                None => 0,
            }) + unpacked_from(data, next, 0),
            BlfObject::BadMagic => if bad + 1 > MAX_BAD_MAGIC {
                0
            } else {
                1 + unpacked_from(data, pos + 1, bad + 1)
            },
            BlfObject::Truncated => 0,
        }
    }
}

/// The number of bytes of objects that the reader of a file goes through.
pub open spec fn unpacked_size(data: Seq<u8>) -> nat {
    unpacked_from(data, FILE_HEADER_LEN as int, 0)
}

/// The frame of an object has no more payload than the object has bytes.
pub proof fn lemma_frame_within_object(data: Seq<u8>, pos: int)
    requires
        object_at(data, pos) is Frame,
    ensures
        object_at(data, pos)->Frame_frame.data.len() <= object_at(data, pos)->Frame_next - pos,
        object_at(data, pos)->Frame_next <= data.len(),
{
}

/// Every object that is read ends within the bytes it is read from.
pub proof fn lemma_object_within_bytes(data: Seq<u8>, pos: int)
    ensures
        match object_at(data, pos) {
            BlfObject::Frame { next, .. } => pos < next <= data.len(),
            BlfObject::Skipped { next } => pos < next <= data.len(),
            BlfObject::Container { next, .. } => pos < next <= data.len(),
            BlfObject::BadMagic => pos + 4 <= data.len(),
            BlfObject::Truncated => true,
        },
{
}

/// The payload of an item in front adds to the payload of those behind.
pub proof fn lemma_payload_of_first(item: Option<CanFrameView>, rest: Seq<Option<CanFrameView>>)
    ensures
        payload_bytes(seq![item] + rest) == payload_bytes(rest) + match item {
            Some(frame) => frame.data.len(),
            None => 0,
        },
{
    assert((seq![item] + rest).drop_first() =~= rest);
}

/// The frames that a reader still hands out have no more payload than the
/// bytes of objects that lie ahead of it: what is left of the container it
/// is in, or the tail it keeps, and what it goes through in the rest of the
/// file.
pub proof fn lemma_payload_within_objects(data: Seq<u8>, s: ReaderState)
    requires
        0 <= s.inner_pos <= s.inner.len(),
    ensures
        payload_bytes(remaining(data, s)) <= (if s.inside {
            s.inner.len() - s.inner_pos
        } else {
            s.tail.len() as int
        }) + unpacked_from(data, s.pos, s.bad),
    decreases data.len() - s.pos, (if s.inside {
        1 + s.inner.len() - s.inner_pos
    } else {
        0
    }),
{
    if s.finished || s.pos < 0 {
    } else if s.inside {
        lemma_object_within_bytes(s.inner, s.inner_pos);
        match object_at(s.inner, s.inner_pos) {
            BlfObject::Frame { frame, next } => {
                lemma_frame_within_object(s.inner, s.inner_pos);
                lemma_payload_within_objects(data, moved_inside(s, next, 0));
                lemma_payload_of_first(Some(frame), remaining(data, moved_inside(s, next, 0)));
            },
            BlfObject::Skipped { next } => {
                lemma_payload_within_objects(data, moved_inside(s, next, 0));
            },
            BlfObject::Container { next, .. } => {
                lemma_payload_within_objects(data, moved_inside(s, next, 0));
            },
            BlfObject::BadMagic => {
                if s.inner_bad + 1 > MAX_BAD_MAGIC {
                    lemma_payload_within_objects(data, left(s));
                } else {
                    lemma_payload_within_objects(
                        data,
                        moved_inside(s, s.inner_pos + 1, s.inner_bad + 1),
                    );
                }
            },
            BlfObject::Truncated => {
                lemma_payload_within_objects(data, left(s));
            },
        }
    } else {
        lemma_object_within_bytes(data, s.pos);
        match object_at(data, s.pos) {
            BlfObject::Frame { frame, next } => {
                lemma_frame_within_object(data, s.pos);
                lemma_payload_within_objects(data, moved(s, next, 0));
                lemma_payload_of_first(Some(frame), remaining(data, moved(s, next, 0)));
            },
            BlfObject::Skipped { next } => {
                lemma_payload_within_objects(data, moved(s, next, 0));
            },
            BlfObject::Container { method, uncompressed_size, payload, next } => {
                match container_bytes(method, uncompressed_size, payload) {
                    Some(bytes) => {
                        lemma_payload_within_objects(data, entered(s, next, bytes));
                    },
                    None => {
                        lemma_payload_within_objects(data, moved(s, next, 0));
                        lemma_payload_of_first(None, remaining(data, moved(s, next, 0)));
                    },
                }
            },
            BlfObject::BadMagic => {
                if s.bad + 1 <= MAX_BAD_MAGIC {
                    lemma_payload_within_objects(data, moved(s, s.pos + 1, s.bad + 1));
                }
            },
            BlfObject::Truncated => {},
        }
    }
}

/// The frames of a file have no more payload than the bytes of objects that
/// the reader goes through; so they have no more payload than the size that
/// the header declares for the objects, wherever that size is no smaller
/// than what the file unpacks to.
pub proof fn lemma_file_payload_within_unpacked_size(data: Seq<u8>)
    ensures
        payload_bytes(file_frames(data)) <= unpacked_size(data),
        header_valid(data) && le_u64_at(data, 24) >= unpacked_size(data) ==> payload_bytes(
            file_frames(data),
        ) <= le_u64_at(data, 24),
{
    lemma_payload_within_objects(data, initial_state());
}

/// What the reader found at a position.
enum ObjectRead {
    BadMagic,
    Truncated,
    Skipped { next: usize },
    Frame { frame: CanFrame, next: usize },
    Container { method: u16, uncompressed_size: u32, start: usize, end: usize, next: usize },
}

impl ObjectRead {
    /// What was found, as mathematical values.
    spec fn found(self, data: Seq<u8>) -> BlfObject {
        match self {
            ObjectRead::BadMagic => BlfObject::BadMagic,
            ObjectRead::Truncated => BlfObject::Truncated,
            ObjectRead::Skipped { next } => BlfObject::Skipped { next: next as int },
            ObjectRead::Frame { frame, next } => BlfObject::Frame { frame: frame@, next: next as int },
            ObjectRead::Container { method, uncompressed_size, start, end, next } => {
                BlfObject::Container {
                    method,
                    uncompressed_size,
                    payload: data.subrange(start as int, end as int),
                    next: next as int,
                }
            },
        }
    }

    /// The positions lie within the stream and behind `pos`.
    spec fn in_range(self, data: Seq<u8>, pos: int) -> bool {
        match self {
            ObjectRead::BadMagic => pos + 4 <= data.len(),
            ObjectRead::Truncated => true,
            ObjectRead::Skipped { next } => pos < next <= data.len(),
            ObjectRead::Frame { next, .. } => pos < next <= data.len(),
            ObjectRead::Container { start, end, next, .. } => pos < start <= end <= next
                <= data.len(),
        }
    }
}

/// Reads what stands at a position of a stream of objects.
fn read_object(data: &[u8], pos: usize) -> (r: ObjectRead)
    requires
        pos <= data@.len(),
    ensures
        r.found(data@) == object_at(data@, pos as int),
        r.in_range(data@, pos as int),
{
    let len = data.len();
    if len - pos < 4 {
        return ObjectRead::Truncated;
    }
    if !(data[pos] == 0x4C && data[pos + 1] == 0x4F && data[pos + 2] == 0x42 && data[pos + 3]
        == 0x4A) {
        return ObjectRead::BadMagic;
    }
    if len - pos < 16 {
        return ObjectRead::Truncated;
    }
    let size32 = read_u32(data, pos + 8);
    let kind = read_u32(data, pos + 12);
    if size32 < 16 || size32 as u64 > (len - pos) as u64 {
        return ObjectRead::Truncated;
    }
    let size = size32 as usize;
    let end = pos + size;
    let padding = size % 4;
    let next = if padding > len - end {
        len
    } else {
        end + padding
    };
    if kind == 10 {
        if size < 32 {
            return ObjectRead::Truncated;
        }
        ObjectRead::Container {
            method: read_u16(data, pos + 16),
            uncompressed_size: read_u32(data, pos + 24),
            start: pos + 32,
            end,
            next,
        }
    } else if kind == 86 {
        if size < 48 {
            return ObjectRead::Truncated;
        }
        let flags = data[pos + 34];
        let channel = read_u16(data, pos + 32);
        assert(channel as u8 == channel % 0x100) by (bit_vector);
        ObjectRead::Frame {
            frame: CanFrame {
                timestamp_ns: read_u64(data, pos + 24),
                channel: #[verifier::truncate]
                (channel as u8),
                can_id: read_u32(data, pos + 36),
                data: slice_to_vec(slice_subrange(data, pos + 40, end - 8)),
                is_extended: (flags & 0x02) != 0,
                is_fd: (flags & 0x80) != 0,
                is_error_frame: false,
                is_remote_frame: (flags & 0x04) != 0,
            },
            next,
        }
    } else if kind == 73 {
        if size < 64 {
            return ObjectRead::Truncated;
        }
        let channel = read_u16(data, pos + 32);
        assert(channel as u8 == channel % 0x100) by (bit_vector);
        ObjectRead::Frame {
            frame: CanFrame {
                timestamp_ns: read_u64(data, pos + 24),
                channel: #[verifier::truncate]
                (channel as u8),
                can_id: read_u32(data, pos + 48),
                data: slice_to_vec(slice_subrange(data, pos + 56, pos + 64)),
                is_extended: false,
                is_fd: false,
                is_error_frame: true,
                is_remote_frame: false,
            },
            next,
        }
    } else if kind == 100 || kind == 101 {
        if size < 116 {
            return ObjectRead::Truncated;
        }
        let timestamp_ns = read_u64(data, pos + 24);
        let body = slice_subrange(data, pos + 32, pos + 116);
        match CanFdMessage::parse(body, timestamp_ns) {
            Ok(message) => {
                proof {
                    assert(canfd_message_at(body@, 0, timestamp_ns).data =~= canfd_message_at(
                        data@,
                        pos + 32,
                        timestamp_ns,
                    ).data);
                }
                ObjectRead::Frame { frame: message.to_can_frame(), next }
            },
            Err(_) => ObjectRead::Truncated,
        }
    } else {
        ObjectRead::Skipped { next }
    }
}

/// Joins two sequences of bytes.
fn joined(a: &[u8], b: &[u8]) -> (r: Vec<u8>)
    ensures
        r@ == a@ + b@,
{
    let mut r: Vec<u8> = slice_to_vec(a);
    let mut i: usize = 0;
    while i < b.len()
        invariant
            i <= b@.len(),
            r@ == a@ + b@.take(i as int),
        decreases b@.len() - i,
    {
        r.push(b[i]);
        assert(b@.take(i + 1) =~= b@.take(i as int).push(b@[i as int]));
        i += 1;
    }
    assert(b@.take(i as int) =~= b@);
    r
}

/// Tests whether the bytes from a position on are too few to tell what
/// stands there.
fn needs_bytes(data: &[u8], pos: usize) -> (r: bool)
    requires
        pos <= data@.len(),
    ensures
        r == lacks_bytes(data@, pos as int),
{
    let len = data.len();
    if len - pos < 4 {
        return true;
    }
    if !(data[pos] == 0x4C && data[pos + 1] == 0x4F && data[pos + 2] == 0x42 && data[pos + 3]
        == 0x4A) {
        return false;
    }
    if len - pos < 16 {
        return true;
    }
    let size = read_u32(data, pos + 8);
    size >= 16 && (size as u64) + (size as u64) % 4 > (len - pos) as u64
}

/// The reader of the frames of a BLF file.
///
/// The bytes of the file may be given at once or piece by piece. A reader
/// that has not been told that the file is complete asks for bytes where
/// those it holds do not suffice; the bytes it has gone through are given
/// up when it is fed.
pub struct BlfFrameIterator {
    consumed: Ghost<Seq<u8>>,
    data: Vec<u8>,
    pos: usize,
    complete: bool,
    bad_magic: u32,
    inside: bool,
    inner: Vec<u8>,
    inner_pos: usize,
    inner_bad: u32,
    tail: Vec<u8>,
    finished: bool,
}

/// The view of an item that the reader hands out: the frame, or nothing for
/// a failure.
pub open spec fn frame_item(item: Result<CanFrame, DecoderError>) -> Option<CanFrameView> {
    match item {
        Ok(f) => Some(f@),
        Err(_) => None,
    }
}

/// What one step of a reader yields.
#[derive(Debug, Clone, PartialEq)]
pub enum BlfStep {
    /// A frame.
    Frame(CanFrame),
    /// The failure of a container whose bytes cannot be had.
    Failed(DecoderError),
    /// The reader must be fed, or told that the file is complete.
    NeedsBytes,
    /// The file is read.
    End,
}

impl BlfStep {
    /// The items that a step hands out.
    pub open spec fn items(self) -> Seq<Option<CanFrameView>> {
        match self {
            BlfStep::Frame(f) => seq![Some(f@)],
            BlfStep::Failed(_) => seq![None],
            BlfStep::NeedsBytes => Seq::empty(),
            BlfStep::End => Seq::empty(),
        }
    }
}

impl BlfFrameIterator {
    /// The bytes of the file that the reader has been given.
    pub closed spec fn file(&self) -> Seq<u8> {
        self.consumed@ + self.data@
    }

    /// Whether the reader has been given all bytes of the file.
    pub closed spec fn complete(&self) -> bool {
        self.complete
    }

    /// Where the reader stands.
    pub closed spec fn state(&self) -> ReaderState {
        ReaderState {
            pos: self.consumed@.len() + self.pos,
            bad: self.bad_magic as int,
            inside: self.inside,
            inner: self.inner@,
            inner_pos: self.inner_pos as int,
            inner_bad: self.inner_bad as int,
            tail: self.tail@,
            finished: self.finished,
        }
    }

    /// The positions lie within the bytes they refer to.
    pub closed spec fn wf(&self) -> bool {
        &&& self.pos <= self.data.len()
        &&& self.inner_pos <= self.inner.len()
        &&& self.bad_magic <= MAX_BAD_MAGIC
        &&& self.inner_bad <= MAX_BAD_MAGIC
        &&& !self.inside ==> self.inner@.len() == 0 && self.inner_pos == 0 && self.inner_bad == 0
        &&& self.inside ==> self.tail@.len() == 0
    }

    /// The items that the reader still hands out, the file being complete.
    pub open spec fn remaining_items(&self) -> Seq<Option<CanFrameView>> {
        remaining(self.file(), self.state())
    }

    /// The items that the reader still hands out if the bytes it has been
    /// given are followed by further ones.
    pub open spec fn remaining_with(&self, behind: Seq<u8>) -> Seq<Option<CanFrameView>> {
        remaining(self.file() + behind, self.state())
    }

    /// Tells whether the reader has been given all bytes of the file.
    pub fn is_complete(&self) -> (r: bool)
        ensures
            r == self.complete(),
    {
        self.complete
    }

    /// Gives the reader further bytes of the file.
    pub fn feed(&mut self, bytes: &[u8])
        requires
            old(self).wf(),
            !old(self).complete(),
        ensures
            final(self).wf(),
            !final(self).complete(),
            final(self).file() == old(self).file() + bytes@,
            final(self).state() == old(self).state(),
    {
        let kept = slice_subrange(self.data.as_slice(), self.pos, self.data.len());
        let window = joined(kept, bytes);
        proof {
            let gone = self.data@.subrange(0, self.pos as int);
            assert(self.consumed@ + gone + window@ =~= self.consumed@ + self.data@ + bytes@);
            self.consumed = Ghost(self.consumed@ + gone);
        }
        self.data = window;
        self.pos = 0;
    }

    /// Tells the reader that it has been given all bytes of the file.
    pub fn finish(&mut self)
        requires
            old(self).wf(),
        ensures
            final(self).wf(),
            final(self).complete(),
            final(self).file() == old(self).file(),
            final(self).state() == old(self).state(),
    {
        self.complete = true;
    }

    /// How far the reader is from the end of what it holds, in the three
    /// numbers by which every move brings it nearer.
    pub closed spec fn distance(&self) -> (int, int, int) {
        (
            self.data@.len() - self.pos,
            if self.inside {
                1 + self.inner@.len() - self.inner_pos
            } else {
                0
            },
            if self.finished {
                0
            } else {
                1
            },
        )
    }

    /// Whether a move has brought the reader nearer to the end.
    pub open spec fn nearer(now: (int, int, int), before: (int, int, int)) -> bool {
        &&& 0 <= now.0 && 0 <= now.1 && 0 <= now.2
        &&& now.0 < before.0 || (now.0 == before.0 && now.1 < before.1) || (now.0 == before.0
            && now.1 == before.1 && now.2 < before.2)
    }

    /// What a move hands out.
    pub open spec fn handed_out(step: Option<BlfStep>) -> Seq<Option<CanFrameView>> {
        match step {
            Some(s) => s.items(),
            None => Seq::empty(),
        }
    }

    /// Reads the object at the position inside the container.
    fn advance_inside(&mut self) -> (r: Option<BlfStep>)
        requires
            old(self).wf(),
            old(self).inside,
            !old(self).finished,
        ensures
            final(self).wf(),
            final(self).file() == old(self).file(),
            final(self).complete == old(self).complete,
            forall|behind: Seq<u8>| #[trigger]
                old(self).remaining_with(behind) == Self::handed_out(r) + final(self).remaining_with(behind),
            r matches Some(step) ==> step is Frame,
            r.is_none() ==> Self::nearer(final(self).distance(), old(self).distance()),
    {
        let ghost file = self.file();
        let ghost before = self.state();
        let found = read_object(self.inner.as_slice(), self.inner_pos);
        let r = match found {
            ObjectRead::Frame { frame, next } => {
                self.inner_pos = next;
                self.inner_bad = 0;
                Some(BlfStep::Frame(frame))
            },
            ObjectRead::Skipped { next } => {
                self.inner_pos = next;
                self.inner_bad = 0;
                None
            },
            ObjectRead::Container { next, .. } => {
                self.inner_pos = next;
                self.inner_bad = 0;
                None
            },
            ObjectRead::BadMagic => {
                if self.inner_bad + 1 > MAX_BAD_MAGIC {
                    self.leave();
                } else {
                    self.inner_pos = self.inner_pos + 1;
                    self.inner_bad = self.inner_bad + 1;
                }
                None
            },
            ObjectRead::Truncated => {
                self.leave();
                None
            },
        };
        proof {
            let after = self.state();
            assert forall|behind: Seq<u8>| #[trigger]
                remaining(file + behind, before) == Self::handed_out(r) + remaining(
                    file + behind,
                    after,
                ) by {
                assert(Seq::<Option<CanFrameView>>::empty() + remaining(file + behind, after)
                    =~= remaining(file + behind, after));
            }
        }
        r
    }

    /// Reads the object at the position in the file.
    fn advance_outside(&mut self) -> (r: Option<BlfStep>)
        requires
            old(self).wf(),
            !old(self).inside,
            !old(self).finished,
        ensures
            final(self).wf(),
            final(self).file() == old(self).file(),
            final(self).complete == old(self).complete,
            forall|behind: Seq<u8>|
                (old(self).complete ==> behind.len() == 0) ==> #[trigger] old(self).remaining_with(behind) == Self::handed_out(r) + final(self).remaining_with(
                    behind,
                ),
            r matches Some(step) ==> !(step is End) && (step is NeedsBytes ==> !old(self).complete),
            r matches Some(BlfStep::Failed(e)) ==> e matches DecoderError::LogParseError(text)
                && text@ == "Log container cannot be unpacked"@,
            r.is_none() ==> Self::nearer(final(self).distance(), old(self).distance()),
    {
        let ghost file = self.file();
        let ghost before = self.state();
        if !self.complete && needs_bytes(self.data.as_slice(), self.pos) {
            proof {
                assert forall|behind: Seq<u8>| #[trigger]
                    remaining(file + behind, before) == Seq::<Option<CanFrameView>>::empty()
                        + remaining(file + behind, before) by {
                    assert(Seq::<Option<CanFrameView>>::empty() + remaining(file + behind, before)
                        =~= remaining(file + behind, before));
                }
            }
            return Some(BlfStep::NeedsBytes);
        }
        let found = read_object(self.data.as_slice(), self.pos);
        proof {
            assert forall|behind: Seq<u8>|
                (self.complete ==> behind.len() == 0) implies #[trigger] object_at(
                file + behind,
                before.pos,
            ) == shifted(object_at(self.data@, self.pos as int), self.consumed@.len() as int) by {
                lemma_object_in_window(self.consumed@, self.data@, behind, self.pos as int);
                assert(self.consumed@ + self.data@ + behind =~= file + behind);
            }
        }
        let r = match found {
            ObjectRead::Frame { frame, next } => {
                self.pos = next;
                self.bad_magic = 0;
                Some(BlfStep::Frame(frame))
            },
            ObjectRead::Skipped { next } => {
                self.pos = next;
                self.bad_magic = 0;
                None
            },
            ObjectRead::Container { method, uncompressed_size, start, end, next } => {
                let payload = slice_subrange(self.data.as_slice(), start, end);
                let bytes: Option<Vec<u8>> = if method == 0 {
                    Some(slice_to_vec(payload))
                } else if method == 2 {
                    inflate_zlib(payload, uncompressed_size as usize)
                } else {
                    None
                };
                self.pos = next;
                self.bad_magic = 0;
                match bytes {
                    Some(b) => {
                        self.enter_container(b.as_slice());
                        None
                    },
                    None => Some(
                        BlfStep::Failed(
                            DecoderError::LogParseError(
                                String::from_str("Log container cannot be unpacked"),
                            ),
                        ),
                    ),
                }
            },
            ObjectRead::BadMagic => {
                if self.bad_magic + 1 > MAX_BAD_MAGIC {
                    self.finished = true;
                } else {
                    self.pos = self.pos + 1;
                    self.bad_magic = self.bad_magic + 1;
                }
                None
            },
            ObjectRead::Truncated => {
                self.finished = true;
                None
            },
        };
        proof {
            let after = self.state();
            assert forall|behind: Seq<u8>|
                (self.complete ==> behind.len() == 0) implies #[trigger] remaining(
                file + behind,
                before,
            ) == Self::handed_out(r) + remaining(file + behind, after) by {
                assert(Seq::<Option<CanFrameView>>::empty() + remaining(file + behind, after)
                    =~= remaining(file + behind, after));
            }
        }
        r
    }

    /// Goes on reading until a frame is found, a container fails, bytes are
    /// missing or the file is read.
    ///
    /// What is handed out is what the reading of the whole file hands out at
    /// this point, whatever bytes follow those given so far. Bytes are asked
    /// for only while the file is not complete; the end is told when nothing
    /// more is to come, whatever bytes may follow.
    pub fn next_step(&mut self) -> (r: BlfStep)
        requires
            old(self).wf(),
        ensures
            final(self).wf(),
            final(self).file() == old(self).file(),
            final(self).complete() == old(self).complete(),
            forall|behind: Seq<u8>|
                (old(self).complete() ==> behind.len() == 0) ==> #[trigger] old(self).remaining_with(behind) == r.items() + final(self).remaining_with(behind),
            r is NeedsBytes ==> !old(self).complete(),
            r is End ==> forall|behind: Seq<u8>|
                (#[trigger] final(self).remaining_with(behind)).len() == 0,
            r matches BlfStep::Failed(e) ==> e matches DecoderError::LogParseError(text) && text@
                == "Log container cannot be unpacked"@,
    {
        let ghost file = self.file();
        let ghost start = self.state();
        loop
            invariant
                self.wf(),
                self.file() == file,
                file == old(self).file(),
                start == old(self).state(),
                self.complete == old(self).complete,
                forall|behind: Seq<u8>|
                    (self.complete ==> behind.len() == 0) ==> #[trigger] remaining(
                        file + behind,
                        start,
                    ) == remaining(file + behind, self.state()),
            decreases self.distance().0, self.distance().1, self.distance().2,
        {
            if self.finished {
                proof {
                    assert forall|behind: Seq<u8>|
                        (self.complete ==> behind.len() == 0) implies #[trigger] remaining(
                        file + behind,
                        start,
                    ) == Seq::<Option<CanFrameView>>::empty() + remaining(
                        file + behind,
                        self.state(),
                    ) by {
                        assert(Seq::<Option<CanFrameView>>::empty() + remaining(
                            file + behind,
                            self.state(),
                        ) =~= remaining(file + behind, self.state()));
                    }
                }
                return BlfStep::End;
            }
            let ghost reader = *self;
            let moved = if self.inside {
                self.advance_inside()
            } else {
                self.advance_outside()
            };
            proof {
                assert forall|behind: Seq<u8>|
                    (self.complete ==> behind.len() == 0) implies #[trigger] remaining(
                    file + behind,
                    start,
                ) == Self::handed_out(moved) + remaining(file + behind, self.state()) by {
                    assert(reader.remaining_with(behind) == Self::handed_out(moved)
                        + self.remaining_with(behind));
                }
            }
            if let Some(step) = moved {
                return step;
            }
            proof {
                assert forall|behind: Seq<u8>|
                    (self.complete ==> behind.len() == 0) implies #[trigger] remaining(
                    file + behind,
                    start,
                ) == remaining(file + behind, self.state()) by {
                    assert(Seq::<Option<CanFrameView>>::empty() + remaining(
                        file + behind,
                        self.state(),
                    ) =~= remaining(file + behind, self.state()));
                }
            }
        }
    }

    /// Hands out the next frame of a complete file, or the failure of a
    /// container whose bytes cannot be had; nothing when the file is read.
    pub fn next(&mut self) -> (r: Option<Result<CanFrame, DecoderError>>)
        requires
            old(self).wf(),
            old(self).complete(),
        ensures
            final(self).wf(),
            final(self).complete(),
            final(self).file() == old(self).file(),
            match r {
                Some(item) => old(self).remaining_items() == seq![frame_item(item)] + final(self).remaining_items(),
                None => old(self).remaining_items().len() == 0 && final(self).remaining_items().len()
                    == 0,
            },
            r matches Some(Err(e)) ==> e matches DecoderError::LogParseError(text) && text@
                == "Log container cannot be unpacked"@,
    {
        let step = self.next_step();
        proof {
            let none = Seq::<u8>::empty();
            assert(old(self).file() + none =~= old(self).file());
            assert(old(self).remaining_with(none) == step.items() + self.remaining_with(none));
            assert(Seq::<Option<CanFrameView>>::empty() + self.remaining_items()
                =~= self.remaining_items());
            if step is End {
                assert(self.remaining_with(none).len() == 0);
            }
        }
        match step {
            BlfStep::Frame(frame) => Some(Ok(frame)),
            BlfStep::Failed(e) => Some(Err(e)),
            BlfStep::NeedsBytes => None,
            BlfStep::End => None,
        }
    }

    /// Gives the reader the bytes that a log container unpacks to. Where it
    /// is not reading a container, it begins to read one: the bytes kept
    /// from the container before come first, then the bytes given. Where it
    /// is reading one, the bytes given are put behind those of that
    /// container.
    pub fn enter_container(&mut self, bytes: &[u8])
        requires
            old(self).wf(),
        ensures
            final(self).wf(),
            final(self).file() == old(self).file(),
            final(self).complete() == old(self).complete(),
            final(self).distance().0 == old(self).distance().0,
            final(self).state() == if old(self).state().inside {
                ReaderState { inner: old(self).state().inner + bytes@, ..old(self).state() }
            } else {
                ReaderState {
                    inside: true,
                    inner: old(self).state().tail + bytes@,
                    inner_pos: 0,
                    inner_bad: 0,
                    tail: Seq::empty(),
                    ..old(self).state()
                }
            },
    {
        if self.inside {
            self.inner = joined(self.inner.as_slice(), bytes);
        } else {
            self.inner = joined(self.tail.as_slice(), bytes);
            self.tail = Vec::new();
            self.inner_pos = 0;
            self.inner_bad = 0;
            self.inside = true;
        }
    }

    /// Leaves the container and keeps what was not read of it.
    fn leave(&mut self)
        requires
            old(self).wf(),
            old(self).inside,
        ensures
            final(self).wf(),
            final(self).file() == old(self).file(),
            final(self).complete == old(self).complete,
            final(self).state() == left(old(self).state()),
            final(self).distance().0 == old(self).distance().0,
    {
        self.tail = slice_to_vec(
            slice_subrange(self.inner.as_slice(), self.inner_pos, self.inner.len()),
        );
        self.inner = Vec::new();
        self.inner_pos = 0;
        self.inner_bad = 0;
        self.inside = false;
        assert(self.tail@ =~= old(self).inner@.skip(old(self).inner_pos as int));
    }
}

/// The reader of BLF files.
pub struct BlfParser;

impl BlfParser {
    /// Opens the bytes of a BLF file for reading its frames. Bytes that do
    /// not begin with a valid header are refused with `LogParseError`.
    pub fn parse(data: Vec<u8>) -> (r: Result<BlfFrameIterator, DecoderError>)
        ensures
            r.is_ok() == header_valid(data@),
            r matches Err(e) ==> e matches DecoderError::LogParseError(text) && text@
                == header_refusal(data@),
            r matches Ok(frames) ==> frames.wf() && frames.complete() && frames.file() == data@
                && frames.remaining_items() == file_frames(data@),
    {
        match Self::open(data) {
            Ok(mut frames) => {
                frames.finish();
                Ok(frames)
            },
            Err(e) => Err(e),
        }
    }

    /// Opens a BLF file of which only the first bytes are at hand, the
    /// header at least; further bytes are fed to the reader. Bytes that do
    /// not begin with a valid header are refused with `LogParseError`.
    pub fn open(first: Vec<u8>) -> (r: Result<BlfFrameIterator, DecoderError>)
        ensures
            r.is_ok() == header_valid(first@),
            r matches Err(e) ==> e matches DecoderError::LogParseError(text) && text@
                == header_refusal(first@),
            r matches Ok(frames) ==> frames.wf() && !frames.complete() && frames.file() == first@
                && frames.state() == initial_state(),
    {
        match BlfFileStats::parse(first.as_slice()) {
            Ok(_) => {
                let frames = BlfFrameIterator {
                    consumed: Ghost(Seq::empty()),
                    data: first,
                    pos: FILE_HEADER_LEN,
                    complete: false,
                    bad_magic: 0,
                    inside: false,
                    inner: Vec::new(),
                    inner_pos: 0,
                    inner_bad: 0,
                    tail: Vec::new(),
                    finished: false,
                };
                assert(frames.file() =~= first@);
                Ok(frames)
            },
            Err(e) => Err(e),
        }
    }
}

/// The reader that [`HybridBlfParser`] hands out.
pub type HybridBlfIterator = BlfFrameIterator;

/// The reader of BLF files with CAN-FD message objects. The objects of
/// kinds 100 and 101 are read by the same reader as all others, so that
/// this is [`BlfParser`] under another name.
pub struct HybridBlfParser;

impl HybridBlfParser {
    /// Opens the bytes of a BLF file for reading its frames, as
    /// [`BlfParser::parse`] does.
    pub fn parse(data: Vec<u8>) -> (r: Result<BlfFrameIterator, DecoderError>)
        ensures
            r.is_ok() == header_valid(data@),
            r matches Err(e) ==> e is LogParseError,
            r matches Ok(frames) ==> frames.wf() && frames.file() == data@
                && frames.remaining_items() == file_frames(data@),
    {
        BlfParser::parse(data)
    }
}

} // verus!
