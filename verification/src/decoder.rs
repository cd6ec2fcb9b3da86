//! The decoder: a database of definitions and the decoding of frames
//! against it.
//!
//! Each frame is routed by its CAN identifier: to the container of that
//! identifier, else to the message of that identifier, else it is passed on
//! as a raw frame. A container frame yields several events; they are handed
//! out one per call, in their order.

use vstd::prelude::*;
use vstd::string::{StringExecFns, StrSliceExecFns};
use crate::config::DecoderConfig;
use crate::container_decoder::{
    container_events, event_views, layout_pdus, layout_refused, ContainerDecoder,
};
use crate::formats::blf::{file_frames, header_valid, BlfFrameIterator, BlfParser};
use crate::message_decoder::{decoded_message, MessageDecoder};
use crate::signals::arxml::{
    document_containers, document_ids, document_messages, in_document_order, ArxmlElement,
};
use crate::signals::autosar::{arxml_accepted, arxml_elements, is_arxml_refusal};
use crate::signals::database::{
    container_definition_views, message_definition_views, ContainerDefinition,
    ContainerDefinitionView, DatabaseStats, MessageDefinition, SignalDatabase,
};
use crate::signals::dbc::{any_refused, converted_messages, have_double_scalars, DbcMessage};
use crate::signals::dbc_source::{dbc_accepted, dbc_records, file_text, is_dbc_refusal};
use crate::types::{CanFrame, CanFrameView, DecodedEvent, DecodedEventView, DecoderError};

verus! {

/// The raw-frame event of a frame.
pub open spec fn raw_event(frame: CanFrameView) -> DecodedEventView {
    DecodedEventView::RawFrame {
        timestamp: frame.timestamp_ns,
        channel: frame.channel,
        can_id: frame.can_id,
        data: frame.data,
        is_fd: frame.is_fd,
    }
}

/// Whether a frame cannot be decoded: it belongs to a container whose layout
/// cannot be applied to it.
pub open spec fn frame_refused(db: SignalDatabase, frame: CanFrameView) -> bool {
    match db.container(frame.can_id) {
        Some(c) => layout_refused(frame.data, c.layout),
        None => false,
    }
}

/// The events of one frame. A container takes precedence over a message of
/// the same identifier; a frame without definition, or one of which no
/// signal can be decoded, becomes a raw-frame event.
pub open spec fn frame_events(db: SignalDatabase, frame: CanFrameView) -> Seq<DecodedEventView> {
    match db.container(frame.can_id) {
        Some(c) => container_events(
            frame.timestamp_ns,
            c,
            db,
            layout_pdus(frame.data, c.layout),
            !(c.layout is Queued),
        ),
        None => match db.message(frame.can_id) {
            Some(m) => match decoded_message(
                frame.data,
                m,
                frame.timestamp_ns,
                frame.channel,
                frame.can_id,
            ) {
                Some(e) => seq![e],
                None => seq![raw_event(frame)],
            },
            None => seq![raw_event(frame)],
        },
    }
}

/// What one frame contributes to the output: its events, or a single
/// failure where the frame is refused.
pub open spec fn frame_items(db: SignalDatabase, frame: CanFrameView) -> Seq<
    Option<DecodedEventView>,
> {
    if frame_refused(db, frame) {
        seq![None]
    } else {
        frame_events(db, frame).map_values(|e: DecodedEventView| Some(e))
    }
}

/// The output for a sequence of frames and failures of the reader: a
/// failure is passed on, a frame contributes its items, one after the other.
pub open spec fn trace_items(db: SignalDatabase, frames: Seq<Option<CanFrameView>>) -> Seq<
    Option<DecodedEventView>,
>
    decreases frames.len(),
{
    if frames.len() == 0 {
        Seq::empty()
    } else {
        (match frames[0] {
            Some(frame) => frame_items(db, frame),
            None => seq![None],
        }) + trace_items(db, frames.drop_first())
    }
}

/// Whether the events among a sequence of items are in the order of their
/// times.
pub open spec fn events_in_time_order(items: Seq<Option<DecodedEventView>>) -> bool {
    forall|i: int, j: int|
        0 <= i < j < items.len() && items[i].is_some() && items[j].is_some() ==> items[i].unwrap().timestamp()
            <= items[j].unwrap().timestamp()
}

/// Whether the frames among what a reader gives are in the order of their
/// times.
pub open spec fn frames_in_time_order(frames: Seq<Option<CanFrameView>>) -> bool {
    forall|i: int, j: int|
        0 <= i < j < frames.len() && frames[i].is_some() && frames[j].is_some() ==> frames[i].unwrap().timestamp_ns
            <= frames[j].unwrap().timestamp_ns
}

/// Every event of a frame bears the frame's time.
pub proof fn lemma_frame_events_bear_frame_time(db: SignalDatabase, frame: CanFrameView, k: int)
    requires
        0 <= k < frame_events(db, frame).len(),
    ensures
        frame_events(db, frame)[k].timestamp() == frame.timestamp_ns,
{
    match db.container(frame.can_id) {
        Some(c) => {
            if k > 0 {
                crate::container_decoder::lemma_contained_events_bear_time(
                    db,
                    layout_pdus(frame.data, c.layout),
                    !(c.layout is Queued),
                    frame.timestamp_ns,
                    k - 1,
                );
            }
        },
        None => {},
    }
}

/// Every event of the output bears the time of one of the frames.
pub proof fn lemma_trace_items_origin(
    db: SignalDatabase,
    frames: Seq<Option<CanFrameView>>,
    k: int,
)
    requires
        0 <= k < trace_items(db, frames).len(),
        trace_items(db, frames)[k].is_some(),
    ensures
        exists|j: int|
            0 <= j < frames.len() && (#[trigger] frames[j]).is_some() && frames[j].unwrap().timestamp_ns
                == trace_items(db, frames)[k].unwrap().timestamp(),
    decreases frames.len(),
{
    let head = match frames[0] {
        Some(frame) => frame_items(db, frame),
        None => seq![None],
    };
    if k < head.len() {
        let frame = frames[0].unwrap();
        lemma_frame_events_bear_frame_time(db, frame, k);
        assert(frames[0].is_some());
    } else {
        let rest = frames.drop_first();
        lemma_trace_items_origin(db, rest, k - head.len());
        let j = choose|j: int|
            0 <= j < rest.len() && (#[trigger] rest[j]).is_some() && rest[j].unwrap().timestamp_ns
                == trace_items(db, rest)[k - head.len()].unwrap().timestamp();
        assert(frames[j + 1] == rest[j]);
    }
}

/// Events come out in the order of their times: where the frames of a trace
/// are in the order of their times, so are the events decoded from them.
pub proof fn lemma_events_in_time_order(db: SignalDatabase, frames: Seq<Option<CanFrameView>>)
    requires
        frames_in_time_order(frames),
    ensures
        events_in_time_order(trace_items(db, frames)),
    decreases frames.len(),
{
    if frames.len() > 0 {
        let rest = frames.drop_first();
        assert(frames_in_time_order(rest)) by {
            assert forall|i: int, j: int|
                0 <= i < j < rest.len() && rest[i].is_some() && rest[j].is_some() implies rest[i].unwrap().timestamp_ns
                <= rest[j].unwrap().timestamp_ns by {
                assert(rest[i] == frames[i + 1] && rest[j] == frames[j + 1]);
            }
        }
        lemma_events_in_time_order(db, rest);
        let head = match frames[0] {
            Some(frame) => frame_items(db, frame),
            None => seq![None],
        };
        let all = trace_items(db, frames);
        let tail = trace_items(db, rest);
        assert forall|i: int, j: int|
            0 <= i < j < all.len() && all[i].is_some() && all[j].is_some() implies all[i].unwrap().timestamp()
            <= all[j].unwrap().timestamp() by {
            if j < head.len() {
                let frame = frames[0].unwrap();
                lemma_frame_events_bear_frame_time(db, frame, i);
                lemma_frame_events_bear_frame_time(db, frame, j);
            } else if i < head.len() {
                let frame = frames[0].unwrap();
                lemma_frame_events_bear_frame_time(db, frame, i);
                lemma_trace_items_origin(db, rest, j - head.len());
                let n = choose|n: int|
                    0 <= n < rest.len() && (#[trigger] rest[n]).is_some() && rest[n].unwrap().timestamp_ns
                        == tail[j - head.len()].unwrap().timestamp();
                assert(rest[n] == frames[n + 1]);
            } else {
                assert(all[i] == tail[i - head.len()]);
                assert(all[j] == tail[j - head.len()]);
            }
        }
    }
}

/// The view of one item of the output: the event, or nothing for a failure.
pub open spec fn item_view(item: Result<DecodedEvent, DecoderError>) -> Option<DecodedEventView> {
    match item {
        Ok(e) => Some(e@),
        Err(_) => None,
    }
}

/// The frames of a list, each as an item of a reader.
pub open spec fn listed_frames(frames: Seq<CanFrame>) -> Seq<Option<CanFrameView>> {
    frames.map_values(|f: CanFrame| Some(f@))
}

/// Where the frames come from.
pub enum FrameSource {
    /// A list of frames, read from a position on.
    Memory { frames: Vec<CanFrame>, position: usize },
    /// The reader of a BLF file.
    Blf { reader: BlfFrameIterator },
}

impl FrameSource {
    /// The frames and failures that the source still gives.
    pub open spec fn items(&self) -> Seq<Option<CanFrameView>> {
        match *self {
            FrameSource::Memory { frames, position } => listed_frames(frames@.skip(position as int)),
            FrameSource::Blf { reader } => reader.remaining_items(),
        }
    }

    /// The source is in order.
    pub open spec fn wf(&self) -> bool {
        match *self {
            FrameSource::Memory { frames, position } => position <= frames@.len(),
            FrameSource::Blf { reader } => reader.wf() && reader.complete(),
        }
    }

    /// Takes the next frame or failure from the source.
    pub fn next(&mut self) -> (r: Option<Result<CanFrame, DecoderError>>)
        requires
            old(self).wf(),
        ensures
            final(self).wf(),
            match r {
                Some(item) => old(self).items().len() > 0 && old(self).items()[0]
                    == crate::formats::blf::frame_item(item) && final(self).items() == old(self).items().drop_first(),
                None => old(self).items().len() == 0 && final(self).items().len() == 0,
            },
    {
        match self {
            FrameSource::Memory { frames, position } => {
                if *position < frames.len() {
                    let frame = Self::copy_frame(&frames[*position]);
                    proof {
                        let before = listed_frames(frames@.skip(*position as int));
                        assert(before[0] == Some(frame@));
                        assert(before.drop_first() =~= listed_frames(frames@.skip(*position + 1)));
                    }
                    *position = *position + 1;
                    Some(Ok(frame))
                } else {
                    None
                }
            },
            FrameSource::Blf { reader } => {
                let r = reader.next();
                proof {
                    if r.is_some() {
                        let before = old(self).items();
                        let item_v = crate::formats::blf::frame_item(r.unwrap());
                        assert(before =~= seq![item_v] + reader.remaining_items());
                        assert(before.drop_first() =~= reader.remaining_items());
                    }
                }
                r
            },
        }
    }

    /// Copies a frame.
    fn copy_frame(frame: &CanFrame) -> (r: CanFrame)
        ensures
            r@ == frame@,
    {
        CanFrame {
            timestamp_ns: frame.timestamp_ns,
            channel: frame.channel,
            can_id: frame.can_id,
            data: frame.data.clone(),
            is_extended: frame.is_extended,
            is_fd: frame.is_fd,
            is_error_frame: frame.is_error_frame,
            is_remote_frame: frame.is_remote_frame,
        }
    }
}

/// The decoder that hands out the events of a source of frames one by one.
pub struct DecodingIterator<'a> {
    source: FrameSource,
    signal_db: &'a SignalDatabase,
    pending_events: Vec<DecodedEvent>,
}

impl<'a> DecodingIterator<'a> {
    /// The database the frames are decoded against.
    pub closed spec fn database(&self) -> SignalDatabase {
        *self.signal_db
    }

    /// The events that are buffered, the next one first.
    pub closed spec fn pending(&self) -> Seq<DecodedEventView> {
        event_views(self.pending_events@)
    }

    /// The frames and failures that the source still gives.
    pub closed spec fn frames_left(&self) -> Seq<Option<CanFrameView>> {
        self.source.items()
    }

    /// The database and the source are in order.
    pub closed spec fn wf(&self) -> bool {
        self.signal_db.wf() && self.source.wf()
    }

    /// The items that are still to come: the buffered events, then the
    /// output for what the source still gives.
    pub open spec fn remaining(&self) -> Seq<Option<DecodedEventView>> {
        self.pending().map_values(|e: DecodedEventView| Some(e)) + trace_items(
            self.database(),
            self.frames_left(),
        )
    }

    /// A decoder for a list of frames.
    pub fn new(frames: Vec<CanFrame>, signal_db: &'a SignalDatabase) -> (r: Self)
        requires
            signal_db.wf(),
        ensures
            r.wf(),
            r.database() == *signal_db,
            r.pending() == Seq::<DecodedEventView>::empty(),
            r.frames_left() == listed_frames(frames@),
    {
        let r = DecodingIterator {
            source: FrameSource::Memory { frames, position: 0 },
            signal_db,
            pending_events: Vec::new(),
        };
        assert(frames@.skip(0) =~= frames@);
        assert(event_views(r.pending_events@) =~= Seq::<DecodedEventView>::empty());
        r
    }

    /// A decoder for the frames of a BLF file.
    pub fn from_blf(reader: BlfFrameIterator, signal_db: &'a SignalDatabase) -> (r: Self)
        requires
            signal_db.wf(),
            reader.wf(),
            reader.complete(),
        ensures
            r.wf(),
            r.database() == *signal_db,
            r.pending() == Seq::<DecodedEventView>::empty(),
            r.frames_left() == reader.remaining_items(),
    {
        let r = DecodingIterator {
            source: FrameSource::Blf { reader },
            signal_db,
            pending_events: Vec::new(),
        };
        assert(event_views(r.pending_events@) =~= Seq::<DecodedEventView>::empty());
        r
    }

    /// Takes the next buffered event, if there is one.
    pub fn take_pending(&mut self) -> (r: Option<DecodedEvent>)
        requires
            old(self).wf(),
        ensures
            final(self).wf(),
            final(self).database() == old(self).database(),
            final(self).frames_left() == old(self).frames_left(),
            match r {
                Some(e) => old(self).pending().len() > 0 && e@ == old(self).pending()[0]
                    && final(self).pending() == old(self).pending().skip(1),
                None => old(self).pending().len() == 0 && final(self).pending() == old(self).pending(),
            },
    {
        if self.pending_events.len() == 0 {
            return None;
        }
        let ghost before = self.pending_events@;
        let e = self.pending_events.remove(0);
        assert(event_views(self.pending_events@) =~= event_views(before).skip(1));
        Some(e)
    }

    /// Decodes one frame. The first of its events is returned and the others
    /// are buffered behind those already waiting. A frame that is refused
    /// gives an error and buffers nothing.
    pub fn process_frame(&mut self, frame: &CanFrame) -> (r: Result<
        Option<DecodedEvent>,
        DecoderError,
    >)
        requires
            old(self).wf(),
        ensures
            final(self).wf(),
            final(self).database() == old(self).database(),
            final(self).frames_left() == old(self).frames_left(),
            r.is_err() == frame_refused(old(self).database(), frame@),
            r matches Err(e) ==> e is InvalidData && final(self).pending() == old(self).pending(),
            r matches Ok(first) ==> first.is_some() && frame_events(
                old(self).database(),
                frame@,
            ).len() > 0 && first.unwrap()@ == frame_events(old(self).database(), frame@)[0]
                && final(self).pending() == old(self).pending() + frame_events(
                old(self).database(),
                frame@,
            ).skip(1),
    {
        let ghost before = self.pending_events@;
        let mut events = Self::decode_frame(self.signal_db, frame)?;
        let ghost all = events@;
        let first = events.remove(0);
        let ghost rest = events@;
        self.pending_events.append(&mut events);
        proof {
            assert(event_views(self.pending_events@) =~= event_views(before) + event_views(rest));
            assert(event_views(all) =~= seq![first@] + event_views(rest));
            assert(event_views(all).skip(1) =~= event_views(rest));
        }
        Ok(Some(first))
    }

    /// Hands out the next item: a buffered event if one waits, else the
    /// first item of the next frame; a failure of the reader is passed on.
    /// Nothing is left when no event waits and the source is exhausted.
    pub fn next(&mut self) -> (r: Option<Result<DecodedEvent, DecoderError>>)
        requires
            old(self).wf(),
        ensures
            final(self).wf(),
            final(self).database() == old(self).database(),
            old(self).pending().len() > 0 ==> final(self).frames_left() == old(self).frames_left()
                && final(self).pending() == old(self).pending().skip(1),
            match r {
                Some(item) => old(self).remaining().len() > 0 && item_view(item) == old(self).remaining()[0] && final(self).remaining() == old(self).remaining().skip(1),
                None => old(self).remaining().len() == 0 && final(self).remaining().len() == 0,
            },
    {
        if let Some(event) = self.take_pending() {
            assert(self.remaining() =~= old(self).remaining().skip(1));
            return Some(Ok(event));
        }
        let ghost db = self.database();
        let ghost left = self.frames_left();
        proof {
            assert(self.pending().map_values(|e: DecodedEventView| Some(e)) =~= Seq::<
                Option<DecodedEventView>,
            >::empty());
            assert(old(self).remaining() =~= trace_items(db, left));
        }
        match self.source.next() {
            None => None,
            Some(Err(e)) => {
                proof {
                    assert(self.remaining() =~= old(self).remaining().skip(1));
                }
                Some(Err(e))
            },
            Some(Ok(frame)) => {
                let result = Self::decode_frame(self.signal_db, &frame);
                match result {
                    Ok(mut events) => {
                        let ghost all = events@;
                        let first = events.remove(0);
                        let ghost rest = events@;
                        self.pending_events.append(&mut events);
                        proof {
                            assert(event_views(all) =~= seq![first@] + event_views(rest));
                            assert(self.pending() =~= event_views(rest));
                            assert(frame_items(db, frame@) =~= seq![Some(first@)] + event_views(
                                rest,
                            ).map_values(|e: DecodedEventView| Some(e)));
                            assert(self.remaining() =~= old(self).remaining().skip(1));
                        }
                        Some(Ok(first))
                    },
                    Err(e) => {
                        proof {
                            assert(self.remaining() =~= old(self).remaining().skip(1));
                        }
                        Some(Err(e))
                    },
                }
            },
        }
    }

    /// Decodes one frame into all of its events.
    pub fn decode_frame(signal_db: &SignalDatabase, frame: &CanFrame) -> (r: Result<
        Vec<DecodedEvent>,
        DecoderError,
    >)
        requires
            signal_db.wf(),
        ensures
            r.is_err() == frame_refused(*signal_db, frame@),
            r matches Err(e) ==> e is InvalidData,
            r matches Ok(events) ==> event_views(events@) == frame_events(*signal_db, frame@)
                && events@.len() >= 1,
    {
        let can_id = frame.can_id;
        if let Some(container_def) = signal_db.get_container(can_id) {
            let events = ContainerDecoder::decode_container(frame, container_def, signal_db)?;
            assert(event_views(events@).len() == events@.len());
            assert(frame_events(*signal_db, frame@).len() >= 1);
            return Ok(events);
        }
        let mut events: Vec<DecodedEvent> = Vec::new();
        if let Some(message_def) = signal_db.get_message(can_id) {
            if let Some(decoded_event) = MessageDecoder::decode_message(frame, message_def) {
                events.push(decoded_event);
                assert(event_views(events@) =~= seq![decoded_event@]);
                return Ok(events);
            }
        }
        let raw = DecodedEvent::RawFrame {
            timestamp: frame.timestamp(),
            channel: frame.channel,
            can_id: frame.can_id,
            data: frame.data.clone(),
            is_fd: frame.is_fd,
        };
        events.push(raw);
        assert(event_views(events@) =~= seq![raw@]);
        Ok(events)
    }
}

/// The formats of trace files.
#[derive(Debug, Clone, Copy, PartialEq, Eq, Structural)]
pub enum LogFormat {
    /// Vector's binary log format, by the extension `blf`.
    Blf,
    /// The measurement data format, by the extensions `mf4` and `mdf`.
    Mdf,
}

/// The position of the dot that begins the extension of a path: the last
/// dot, where it lies behind the last separator and is not the first
/// character of the file's name; else the length of the path.
pub open spec fn extension_dot(path: Seq<char>) -> int
    decreases path.len(),
{
    if path.len() == 0 {
        0
    } else if path.last() == '/' || path.last() == '\\' {
        path.len() as int
    } else if path.last() == '.' {
        if path.len() == 1 || path[path.len() - 2] == '/' || path[path.len() - 2] == '\\' {
            path.len() as int
        } else {
            path.len() - 1
        }
    } else {
        let before = extension_dot(path.drop_last());
        if before == path.len() - 1 {
            path.len() as int
        } else {
            before
        }
    }
}

/// The extension of a path: what follows the dot that begins it; nothing
/// where the path has no extension.
pub open spec fn extension_of(path: Seq<char>) -> Option<Seq<char>> {
    if 0 <= extension_dot(path) < path.len() {
        Some(path.skip(extension_dot(path) + 1))
    } else {
        None
    }
}

/// Whether two characters are the same letter in either case, the second
/// being given in lower case.
pub open spec fn same_letter(c: char, lower: char) -> bool {
    c == lower || ('a' <= lower <= 'z' && c as int == lower as int - 32)
}

/// Whether a text is a word, given in lower case, in any mix of cases.
pub open spec fn is_word(text: Seq<char>, lower: Seq<char>) -> bool {
    text.len() == lower.len() && forall|i: int|
        0 <= i < text.len() ==> same_letter(#[trigger] text[i], lower[i])
}

/// The format that the extension of a path names, in either case.
pub open spec fn format_of(path: Seq<char>) -> Option<LogFormat> {
    match extension_of(path) {
        Some(e) => if is_word(e, seq!['b', 'l', 'f']) {
            Some(LogFormat::Blf)
        } else if is_word(e, seq!['m', 'f', '4']) || is_word(e, seq!['m', 'd', 'f']) {
            Some(LogFormat::Mdf)
        } else {
            None
        },
        None => None,
    }
}

/// Tests whether a character is a letter in either case.
fn letter_is(c: char, lower: char) -> (r: bool)
    ensures
        r == same_letter(c, lower),
{
    if c == lower {
        true
    } else if lower >= 'a' && lower <= 'z' {
        (c as u32) + 32 == (lower as u32)
    } else {
        false
    }
}

/// Tests whether the part of a path from `from` on is a word of three
/// letters.
fn word_is(path: &str, from: usize, a: char, b: char, c: char) -> (r: bool)
    requires
        from <= path@.len(),
    ensures
        r == is_word(path@.skip(from as int), seq![a, b, c]),
{
    let len = path.unicode_len();
    if len - from != 3 {
        return false;
    }
    let r = letter_is(path.get_char(from), a) && letter_is(path.get_char(from + 1), b) && letter_is(
        path.get_char(from + 2),
        c,
    );
    proof {
        let text = path@.skip(from as int);
        let word = seq![a, b, c];
        assert(text[0] == path@[from as int] && text[1] == path@[from + 1] && text[2] == path@[from
            + 2]);
        if r {
            assert forall|i: int| 0 <= i < text.len() implies same_letter(
                #[trigger] text[i],
                word[i],
            ) by {
                assert(i == 0 || i == 1 || i == 2);
            }
        }
    }
    r
}

/// Tells the format of a trace file from the extension of its path, in
/// either case. A path with another extension, or with none, is refused
/// with `LogParseError`.
pub fn file_format(path: &str) -> (r: Result<LogFormat, DecoderError>)
    ensures
        r.is_ok() == format_of(path@).is_some(),
        r matches Ok(f) ==> Some(f) == format_of(path@),
        r matches Err(e) ==> e matches DecoderError::LogParseError(m) && m@
            == "unsupported file format"@,
{
    let len = path.unicode_len();
    let mut dot: usize = 0;
    let mut i: usize = 0;
    assert(path@.take(0) =~= Seq::<char>::empty());
    while i < len
        invariant
            i <= len,
            len == path@.len(),
            dot == extension_dot(path@.take(i as int)),
            dot <= i,
        decreases len - i,
    {
        let c = path.get_char(i);
        proof {
            let taken = path@.take(i + 1);
            assert(taken.drop_last() =~= path@.take(i as int));
            assert(taken.last() == c);
            if i > 0 {
                assert(taken[taken.len() - 2] == path@[i - 1]);
            }
        }
        if c == '/' || c == '\\' {
            dot = i + 1;
        } else if c == '.' {
            if i == 0 || path.get_char(i - 1) == '/' || path.get_char(i - 1) == '\\' {
                dot = i + 1;
            } else {
                dot = i;
            }
        } else if dot == i {
            dot = i + 1;
        }
        i += 1;
    }
    assert(path@.take(len as int) =~= path@);
    if dot < len {
        if word_is(path, dot + 1, 'b', 'l', 'f') {
            return Ok(LogFormat::Blf);
        }
        if word_is(path, dot + 1, 'm', 'f', '4') || word_is(path, dot + 1, 'm', 'd', 'f') {
            return Ok(LogFormat::Mdf);
        }
    }
    Err(DecoderError::LogParseError(String::from_str("unsupported file format")))
}

impl Default for Decoder {
    fn default() -> (r: Self)
        ensures
            r.wf(),
            r.database().messages() == Seq::<MessageDefinition>::empty(),
            r.database().containers() == Map::<u32, ContainerDefinition>::empty(),
    {
        Decoder::new()
    }
}

/// The decoder: the database of definitions, filled from definition files,
/// and the decoding of trace files against it.
pub struct Decoder {
    signal_db: SignalDatabase,
}

impl Decoder {
    /// The database of the decoder.
    pub closed spec fn database(&self) -> SignalDatabase {
        self.signal_db
    }

    /// The database is in order.
    pub closed spec fn wf(&self) -> bool {
        self.signal_db.wf()
    }

    /// A decoder with an empty database.
    pub fn new() -> (r: Self)
        ensures
            r.wf(),
            r.database().messages() == Seq::<MessageDefinition>::empty(),
            r.database().containers() == Map::<u32, ContainerDefinition>::empty(),
    {
        Decoder { signal_db: SignalDatabase::new() }
    }

    /// The database of the decoder.
    pub fn signal_database(&self) -> (r: &SignalDatabase)
        requires
            self.wf(),
        ensures
            r.wf(),
            *r == self.database(),
    {
        &self.signal_db
    }

    /// Adds message definitions, in their order, behind those already held.
    pub fn add_messages(&mut self, messages: Vec<MessageDefinition>)
        requires
            old(self).wf(),
        ensures
            final(self).wf(),
            final(self).database().messages() == old(self).database().messages() + messages@,
            final(self).database().containers() == old(self).database().containers(),
    {
        let ghost all = messages@;
        let ghost start = self.signal_db.messages();
        assert(start =~= start + all.take(0));
        for m in it: messages
            invariant
                it.seq() == all,
                self.signal_db.wf(),
                self.signal_db.containers() == old(self).signal_db.containers(),
                self.signal_db.messages() == start + all.take(it.index() as int),
        {
            assert(all.take(it.index() + 1) =~= all.take(it.index() as int).push(m));
            self.signal_db.add_message(m);
            assert(self.signal_db.messages() =~= start + all.take(it.index() + 1));
        }
        assert(all.take(all.len() as int) =~= all);
    }

    /// Adds container definitions, in their order; a later one replaces an
    /// earlier one with the same identifier.
    pub fn add_containers(&mut self, containers: Vec<ContainerDefinition>)
        requires
            old(self).wf(),
        ensures
            final(self).wf(),
            final(self).database().messages() == old(self).database().messages(),
            final(self).database().containers() == with_containers(
                old(self).database().containers(),
                containers@,
            ),
    {
        let ghost all = containers@;
        let ghost start = self.signal_db.containers();
        assert(all.skip(0) =~= all);
        for c in it: containers
            invariant
                it.seq() == all,
                self.signal_db.wf(),
                self.signal_db.messages() == old(self).signal_db.messages(),
                with_containers(self.signal_db.containers(), all.skip(it.index() as int))
                    == with_containers(start, all),
        {
            assert(all.skip(it.index() as int).drop_first() =~= all.skip(it.index() + 1));
            assert(all.skip(it.index() as int)[0] == c);
            self.signal_db.add_container(c);
        }
        assert(all.skip(all.len() as int) =~= Seq::<ContainerDefinition>::empty());
    }

    /// Reads the message definitions of a DBC file held in memory and adds
    /// them to the database, behind the messages already held.
    ///
    /// The bytes are decoded as UTF-8, else as Latin-1, and the text is
    /// handed to the crate `can-dbc`. Text that the crate refuses gives
    /// `DbcParseError`. For text that it accepts, the records that the
    /// crate read from it are converted; where one of them is refused the
    /// result is `InvalidSignalDefinition`, else the definitions of all
    /// messages are added in the order of the file.
    /// A file that fails leaves the database as it is, and containers are
    /// never touched.
    pub fn add_dbc(&mut self, content: &[u8], source: &str) -> (r: Result<(), DecoderError>)
        requires
            old(self).wf(),
        ensures
            final(self).wf(),
            final(self).database().containers() == old(self).database().containers(),
            r.is_err() ==> final(self).database() == old(self).database(),
            !dbc_accepted(file_text(content@)) ==> (r matches Err(e) && is_dbc_refusal(e)),
            dbc_accepted(file_text(content@)) ==> added_from(
                dbc_records(file_text(content@)),
                source@,
                old(self).database().messages(),
                final(self).database().messages(),
                r,
            ),
    {
        let parsed = crate::signals::dbc_source::parse_dbc_file(content, source);
        let ghost before = self.signal_db.messages();
        match parsed {
            Ok(messages) => {
                let ghost list = messages@;
                self.add_messages(messages);
                let r: Result<(), DecoderError> = Ok(());
                proof {
                    let after = self.signal_db.messages();
                    assert(after.skip(before.len() as int) =~= list);
                }
                r
            },
            Err(e) => Err(e),
        }
    }

    /// Reads the definitions of a description file held in memory and adds
    /// them to the database, the messages first.
    ///
    /// It is the crate `autosar-data` that accepts or refuses the file. A
    /// file that is refused gives `ArxmlParseError` and leaves the database
    /// as it is. A file that is accepted is loaded into a document in
    /// document order; the messages read from it are added behind those
    /// already held, and the containers read from it are added in their
    /// order, a later one replacing an earlier one with the same
    /// identifier.
    pub fn add_arxml(&mut self, content: &[u8], source: &str) -> (r: Result<(), DecoderError>)
        requires
            old(self).wf(),
        ensures
            final(self).wf(),
            r.is_ok() == arxml_accepted(content@, source@),
            r matches Err(e) ==> is_arxml_refusal(e),
            r.is_err() ==> final(self).database() == old(self).database(),
            r.is_ok() ==> document_added(
                arxml_elements(content@, source@),
                source@,
                old(self).database(),
                final(self).database(),
            ),
    {
        let parsed = crate::signals::arxml::parse_arxml_file(content, source);
        let ghost before = self.signal_db.messages();
        match parsed {
            Ok((messages, containers)) => {
                let ghost found_messages = messages@;
                let ghost found_containers = containers@;
                self.add_messages(messages);
                self.add_containers(containers);
                proof {
                    let after = self.signal_db.messages();
                    assert(after.skip(before.len() as int) =~= found_messages);
                    lemma_views_of_added_containers(
                        old(self).database().containers(),
                        found_containers,
                    );
                }
                Ok(())
            },
            Err(e) => Err(e),
        }
    }

    /// Opens a trace file held in memory for decoding.
    ///
    /// The format is told from the extension of the path. A BLF file is
    /// read from `content`; it must begin with a valid header. The
    /// measurement data format is read outside this library, so that such a
    /// file is refused here, as is any other extension, with
    /// `LogParseError`.
    pub fn decode_file(&self, path: &str, content: Vec<u8>, _config: DecoderConfig) -> (r: Result<
        DecodingIterator<'_>,
        DecoderError,
    >)
        requires
            self.wf(),
        ensures
            r.is_ok() == (format_of(path@) == Some(LogFormat::Blf) && header_valid(content@)),
            r matches Err(e) ==> e matches DecoderError::LogParseError(text) && text@ == (
            match format_of(path@) {
                Some(LogFormat::Blf) => crate::formats::blf::header_refusal(content@),
                Some(LogFormat::Mdf) => "The measurement data format is read outside this library"@,
                None => "unsupported file format"@,
            }),
            r matches Ok(events) ==> events.wf() && events.database() == self.database()
                && events.remaining() == trace_items(self.database(), file_frames(content@)),
    {
        match file_format(path)? {
            LogFormat::Blf => {
                let reader = BlfParser::parse(content)?;
                let events = DecodingIterator::from_blf(reader, &self.signal_db);
                assert(events.remaining() =~= trace_items(self.database(), file_frames(content@)));
                Ok(events)
            },
            LogFormat::Mdf => Err(
                DecoderError::LogParseError(
                    String::from_str("The measurement data format is read outside this library"),
                ),
            ),
        }
    }

    /// Opens a list of frames for decoding.
    pub fn decode_frames(&self, frames: Vec<CanFrame>) -> (r: DecodingIterator<'_>)
        requires
            self.wf(),
        ensures
            r.wf(),
            r.database() == self.database(),
            r.remaining() == trace_items(self.database(), listed_frames(frames@)),
    {
        let events = DecodingIterator::new(frames, &self.signal_db);
        assert(events.remaining() =~= trace_items(self.database(), listed_frames(frames@)));
        events
    }

    /// The counts of what the database holds.
    pub fn database_stats(&self) -> (r: DatabaseStats)
        requires
            self.wf(),
        ensures
            r.num_messages == self.database().messages().len(),
            r.num_signals == if crate::signals::database::total_signals(
                self.database().messages(),
            ) <= usize::MAX {
                crate::signals::database::total_signals(self.database().messages())
            } else {
                usize::MAX as nat
            },
            r.num_containers == self.database().containers().len(),
    {
        self.signal_db.stats()
    }
}

/// Whether a result and the messages of a database are what the adding of
/// the records of a DBC file gives: where one of the records is refused,
/// `InvalidSignalDefinition` with the messages as they were; else the
/// definitions of all records behind the messages that were held.
pub open spec fn added_from(
    records: Seq<DbcMessage>,
    source: Seq<char>,
    before: Seq<MessageDefinition>,
    after: Seq<MessageDefinition>,
    r: Result<(), DecoderError>,
) -> bool {
    &&& have_double_scalars(records)
    &&& r.is_err() == any_refused(records)
    &&& r matches Err(e) ==> e is InvalidSignalDefinition && after == before
    &&& r.is_ok() ==> before.is_prefix_of(after) && message_definition_views(
        after.skip(before.len() as int),
    ) == converted_messages(records, source)
}

/// The views of the containers of a map.
pub open spec fn container_views(map: Map<u32, ContainerDefinition>) -> Map<
    u32,
    ContainerDefinitionView,
> {
    map.map_values(|c: ContainerDefinition| c@)
}

/// A map of containers, each as its view, with a list of containers added
/// in order; a later one replaces an earlier one with the same identifier.
pub open spec fn with_container_views(
    map: Map<u32, ContainerDefinitionView>,
    containers: Seq<ContainerDefinitionView>,
) -> Map<u32, ContainerDefinitionView>
    decreases containers.len(),
{
    if containers.len() == 0 {
        map
    } else {
        with_container_views(map.insert(containers[0].id, containers[0]), containers.drop_first())
    }
}

/// Whether a database is what another one becomes when the messages and
/// containers read from the elements of a document are added under the
/// name of a file: the messages stand behind those that were held, and
/// the containers are added in their order.
pub open spec fn document_added(
    els: Seq<ArxmlElement>,
    source: Seq<char>,
    before: SignalDatabase,
    after: SignalDatabase,
) -> bool {
    &&& in_document_order(els)
    &&& before.messages().is_prefix_of(after.messages())
    &&& message_definition_views(after.messages().skip(before.messages().len() as int))
        == document_messages(els, document_ids(els), source, els.len() as int)
    &&& container_views(after.containers()) == with_container_views(
        container_views(before.containers()),
        document_containers(els, document_ids(els), source, els.len() as int),
    )
}

/// The views of a map with containers added are the views of the map with
/// the views of the containers added.
pub proof fn lemma_views_of_added_containers(
    map: Map<u32, ContainerDefinition>,
    containers: Seq<ContainerDefinition>,
)
    ensures
        container_views(with_containers(map, containers)) == with_container_views(
            container_views(map),
            container_definition_views(containers),
        ),
    decreases containers.len(),
{
    if containers.len() > 0 {
        let first = containers[0];
        let rest = containers.drop_first();
        lemma_views_of_added_containers(map.insert(first.id, first), rest);
        assert(container_views(map.insert(first.id, first)) =~= container_views(map).insert(
            first.id,
            first@,
        ));
        assert(container_definition_views(containers).drop_first() =~= container_definition_views(
            rest,
        ));
    }
}

/// A map of containers with a list of containers added in order.
pub open spec fn with_containers(
    map: Map<u32, ContainerDefinition>,
    containers: Seq<ContainerDefinition>,
) -> Map<u32, ContainerDefinition>
    decreases containers.len(),
{
    if containers.len() == 0 {
        map
    } else {
        with_containers(map.insert(containers[0].id, containers[0]), containers.drop_first())
    }
}

} // verus!
