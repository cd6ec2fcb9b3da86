//! Unpacking of container frames.
//!
//! A container frame carries several PDUs. A static container holds them at
//! fixed positions, a dynamic one precedes each by a header with its
//! identifier and length, a queued one holds instances of a single PDU one
//! after the other. Unpacking yields one event for the container, with the
//! PDUs found, followed by one decoded message for each PDU that a message
//! definition of the database decodes.

use vstd::prelude::*;
use vstd::slice::{slice_subrange, slice_to_vec};
use crate::message_decoder::{decoded_message, MessageDecoder};
use crate::signals::database::{
    ContainedPduInfo, ContainerDefinition, ContainerLayout, MessageDefinition, SignalDatabase,
};
use crate::text::{decimal_digits, decimal_text, join};
use crate::types::{
    pdu_views, CanFrame, ContainedPdu, ContainedPduView, DecodedEvent, DecodedEventView,
    DecoderError, Timestamp,
};

verus! {

/// The views of a sequence of events.
pub open spec fn event_views(events: Seq<DecodedEvent>) -> Seq<DecodedEventView> {
    events.map_values(|e: DecodedEvent| e@)
}

/// Whether all bytes are zero.
pub open spec fn all_zero(bytes: Seq<u8>) -> bool {
    forall|i: int| 0 <= i < bytes.len() ==> bytes[i] == 0
}

/// The PDUs of a static container: each PDU of the layout whose bytes lie
/// within the payload, in the order of the layout.
pub open spec fn static_pdus(data: Seq<u8>, layout: Seq<ContainedPduInfo>) -> Seq<ContainedPduView>
    decreases layout.len(),
{
    if layout.len() == 0 {
        Seq::empty()
    } else {
        let before = static_pdus(data, layout.drop_last());
        let p = layout.last();
        if p.position + p.size <= data.len() {
            before.push(
                ContainedPduView {
                    pdu_id: p.pdu_id,
                    name: p.name@,
                    data: data.subrange(p.position as int, p.position + p.size),
                },
            )
        } else {
            before
        }
    }
}

/// The identifier in a header: the first two bytes of a short header, the
/// first four of a long one, most significant byte first.
pub open spec fn header_pdu_id(header: Seq<u8>) -> u32 {
    if header.len() == 4 {
        (header[0] as u32 * 256 + header[1] as u32) as u32
    } else {
        (header[0] as u32 * 0x100_0000 + header[1] as u32 * 0x1_0000 + header[2] as u32 * 0x100
            + header[3] as u32) as u32
    }
}

/// The length in a header: the third byte of a short header, the last four
/// bytes of a long one, most significant byte first.
pub open spec fn header_pdu_length(header: Seq<u8>) -> int {
    if header.len() == 4 {
        header[2] as int
    } else {
        header[4] as int * 0x100_0000 + header[5] as int * 0x1_0000 + header[6] as int * 0x100
            + header[7] as int
    }
}

/// The name that the layout gives to an identifier: that of the first PDU
/// of the layout with the identifier.
pub open spec fn known_name(layout: Seq<ContainedPduInfo>, pdu_id: u32) -> Option<Seq<char>>
    decreases layout.len(),
{
    if layout.len() == 0 {
        None
    } else if layout[0].pdu_id == pdu_id {
        Some(layout[0].name@)
    } else {
        known_name(layout.drop_first(), pdu_id)
    }
}

/// The name of a PDU found in a dynamic container: the one the layout gives,
/// else `PDU_` and the identifier in decimal.
pub open spec fn dynamic_name(layout: Seq<ContainedPduInfo>, pdu_id: u32) -> Seq<char> {
    match known_name(layout, pdu_id) {
        Some(name) => name,
        None => "PDU_"@ + decimal_digits(pdu_id as nat),
    }
}

/// The PDUs of a dynamic container from an offset on. Reading stops where
/// fewer bytes than a header remain, at a header of zeros, and at a header
/// whose length exceeds what remains.
pub open spec fn dynamic_pdus(
    data: Seq<u8>,
    header_size: int,
    layout: Seq<ContainedPduInfo>,
    offset: int,
) -> Seq<ContainedPduView>
    decreases data.len() - offset,
{
    if header_size <= 0 || offset < 0 || offset + header_size > data.len() {
        Seq::empty()
    } else {
        let header = data.subrange(offset, offset + header_size);
        let length = header_pdu_length(header);
        let start = offset + header_size;
        if all_zero(header) || start + length > data.len() {
            Seq::empty()
        } else {
            seq![
                ContainedPduView {
                    pdu_id: header_pdu_id(header),
                    name: dynamic_name(layout, header_pdu_id(header)),
                    data: data.subrange(start, start + length),
                },
            ] + dynamic_pdus(data, header_size, layout, start + length)
        }
    }
}

/// The name of an instance in a queued container: `PDU_`, the identifier,
/// `_` and the number of the instance, both in decimal.
pub open spec fn queued_name(pdu_id: u32, instance: nat) -> Seq<char> {
    "PDU_"@ + decimal_digits(pdu_id as nat) + "_"@ + decimal_digits(instance)
}

/// The instances of a queued container from an offset on. Reading stops
/// where fewer bytes than an instance remain and at an instance of zeros.
pub open spec fn queued_pdus(
    data: Seq<u8>,
    pdu_id: u32,
    pdu_size: int,
    offset: int,
    instance: nat,
) -> Seq<ContainedPduView>
    decreases data.len() - offset,
{
    if pdu_size <= 0 || offset < 0 || offset + pdu_size > data.len() {
        Seq::empty()
    } else {
        let bytes = data.subrange(offset, offset + pdu_size);
        if all_zero(bytes) {
            Seq::empty()
        } else {
            seq![ContainedPduView { pdu_id, name: queued_name(pdu_id, instance), data: bytes }]
                + queued_pdus(data, pdu_id, pdu_size, offset + pdu_size, instance + 1)
        }
    }
}

/// The definition that decodes a contained PDU: the message of the PDU's
/// name, or, in a queued container, the message whose CAN identifier is the
/// PDU's identifier.
pub open spec fn pdu_definition(db: SignalDatabase, pdu: ContainedPduView, by_name: bool) -> Option<
    MessageDefinition,
> {
    if by_name {
        db.message_by_name(pdu.name)
    } else {
        db.message(pdu.pdu_id)
    }
}

/// The message that a contained PDU decodes to, where a definition is found
/// and decodes at least one signal.
pub open spec fn contained_event(
    db: SignalDatabase,
    pdu: ContainedPduView,
    by_name: bool,
    timestamp: Timestamp,
) -> Option<DecodedEventView> {
    match pdu_definition(db, pdu, by_name) {
        Some(def) => decoded_message(pdu.data, def, timestamp, 0, def.id),
        None => None,
    }
}

/// The decoded messages of a sequence of contained PDUs, in their order.
pub open spec fn contained_events(
    db: SignalDatabase,
    pdus: Seq<ContainedPduView>,
    by_name: bool,
    timestamp: Timestamp,
) -> Seq<DecodedEventView>
    decreases pdus.len(),
{
    if pdus.len() == 0 {
        Seq::empty()
    } else {
        let before = contained_events(db, pdus.drop_last(), by_name, timestamp);
        match contained_event(db, pdus.last(), by_name, timestamp) {
            Some(e) => before.push(e),
            None => before,
        }
    }
}

/// Every decoded message of a container bears the time it was decoded for.
pub proof fn lemma_contained_events_bear_time(
    db: SignalDatabase,
    pdus: Seq<ContainedPduView>,
    by_name: bool,
    timestamp: Timestamp,
    k: int,
)
    requires
        0 <= k < contained_events(db, pdus, by_name, timestamp).len(),
    ensures
        contained_events(db, pdus, by_name, timestamp)[k].timestamp() == timestamp,
    decreases pdus.len(),
{
    let before = contained_events(db, pdus.drop_last(), by_name, timestamp);
    if k < before.len() {
        lemma_contained_events_bear_time(db, pdus.drop_last(), by_name, timestamp, k);
    }
}

/// The events of a container frame: the container's own event with the PDUs
/// found, then the decoded messages in the order of the PDUs.
pub open spec fn container_events(
    timestamp: Timestamp,
    container: ContainerDefinition,
    db: SignalDatabase,
    pdus: Seq<ContainedPduView>,
    by_name: bool,
) -> Seq<DecodedEventView> {
    seq![
        DecodedEventView::ContainerPdu {
            timestamp,
            container_id: container.id,
            container_name: container.name@,
            container_type: container.container_type,
            contained_pdus: pdus,
        },
    ] + contained_events(db, pdus, by_name, timestamp)
}

/// Whether a dynamic container cannot be unpacked: its header size is
/// neither 4 nor 8, and the payload begins with a header of that size that
/// is not a header of zeros. A payload shorter than one header is no such
/// case: it holds no PDU.
pub open spec fn dynamic_layout_refused(data: Seq<u8>, header_size: int) -> bool {
    header_size != 4 && header_size != 8 && header_size <= data.len() && !all_zero(
        data.subrange(0, header_size),
    )
}

/// What is said where a dynamic layout is refused.
pub open spec fn dynamic_refusal(header_size: int) -> Seq<char> {
    "Unsupported header size: "@ + decimal_digits(header_size as nat)
}

/// The PDUs that a frame holds under a container layout.
pub open spec fn layout_pdus(data: Seq<u8>, layout: ContainerLayout) -> Seq<ContainedPduView> {
    match layout {
        ContainerLayout::Static { pdus } => static_pdus(data, pdus@),
        ContainerLayout::Dynamic { header_size, pdus } => if header_size == 4 || header_size == 8 {
            dynamic_pdus(data, header_size as int, pdus@, 0)
        } else {
            Seq::empty()
        },
        ContainerLayout::Queued { pdu_id, pdu_size } => queued_pdus(
            data,
            pdu_id,
            pdu_size as int,
            0,
            0,
        ),
    }
}

/// Whether a container layout cannot be applied to a payload.
pub open spec fn layout_refused(data: Seq<u8>, layout: ContainerLayout) -> bool {
    match layout {
        ContainerLayout::Dynamic { header_size, .. } => dynamic_layout_refused(
            data,
            header_size as int,
        ),
        _ => false,
    }
}

/// Copies a range of bytes.
fn copy_range(data: &[u8], from: usize, to: usize) -> (r: Vec<u8>)
    requires
        from <= to <= data@.len(),
    ensures
        r@ == data@.subrange(from as int, to as int),
{
    slice_to_vec(slice_subrange(data, from, to))
}

/// Tests whether a range of bytes holds only zeros.
fn range_is_zero(data: &[u8], from: usize, to: usize) -> (r: bool)
    requires
        from <= to <= data@.len(),
    ensures
        r == all_zero(data@.subrange(from as int, to as int)),
{
    let mut i: usize = from;
    while i < to
        invariant
            from <= i <= to <= data@.len(),
            forall|j: int| from <= j < i ==> data@[j] == 0,
        decreases to - i,
    {
        if data[i] != 0 {
            assert(data@.subrange(from as int, to as int)[i - from] == data@[i as int]);
            return false;
        }
        i += 1;
    }
    true
}

/// Looks an identifier up in a layout.
fn find_known<'a>(layout: &'a [ContainedPduInfo], pdu_id: u32) -> (r: Option<&'a String>)
    ensures
        r.is_some() == known_name(layout@, pdu_id).is_some(),
        r matches Some(name) ==> Some(name@) == known_name(layout@, pdu_id),
{
    let mut i: usize = 0;
    assert(layout@.skip(0) =~= layout@);
    while i < layout.len()
        invariant
            i <= layout@.len(),
            known_name(layout@, pdu_id) == known_name(layout@.skip(i as int), pdu_id),
        decreases layout@.len() - i,
    {
        assert(layout@.skip(i as int)[0] == layout@[i as int]);
        assert(layout@.skip(i as int).drop_first() =~= layout@.skip(i + 1));
        if layout[i].pdu_id == pdu_id {
            return Some(&layout[i].name);
        }
        i += 1;
    }
    None
}

/// Puts the container's event in front of the decoded messages.
fn assemble(
    frame: &CanFrame,
    container_def: &ContainerDefinition,
    contained_pdus: Vec<ContainedPdu>,
    decoded_events: Vec<DecodedEvent>,
) -> (events: Vec<DecodedEvent>)
    ensures
        event_views(events@) == seq![
            DecodedEventView::ContainerPdu {
                timestamp: frame.timestamp_ns,
                container_id: container_def.id,
                container_name: container_def.name@,
                container_type: container_def.container_type,
                contained_pdus: pdu_views(contained_pdus@),
            },
        ] + event_views(decoded_events@),
{
    let mut decoded_events = decoded_events;
    let mut events: Vec<DecodedEvent> = Vec::new();
    events.push(
        DecodedEvent::ContainerPdu {
            timestamp: frame.timestamp(),
            container_id: container_def.id,
            container_name: container_def.name.clone(),
            container_type: container_def.container_type,
            contained_pdus,
        },
    );
    let ghost first = events@;
    let ghost rest = decoded_events@;
    events.append(&mut decoded_events);
    assert(event_views(events@) =~= event_views(first) + event_views(rest));
    assert(event_views(first) =~= seq![first[0]@]);
    events
}

/// Decodes one contained PDU, where a definition decodes it, and adds the
/// message to the events.
fn decode_contained(
    pdu: &ContainedPdu,
    definition: Option<&MessageDefinition>,
    timestamp: Timestamp,
    decoded_events: &mut Vec<DecodedEvent>,
)
    ensures
        event_views(final(decoded_events)@) == match definition {
            Some(def) => match decoded_message(pdu.data@, *def, timestamp, 0, def.id) {
                Some(e) => event_views(old(decoded_events)@).push(e),
                None => event_views(old(decoded_events)@),
            },
            None => event_views(old(decoded_events)@),
        },
{
    if let Some(message_def) = definition {
        if let Some(decoded_message) = MessageDecoder::decode_pdu_data(
            pdu.data.as_slice(),
            message_def,
            timestamp,
        ) {
            let ghost before = decoded_events@;
            decoded_events.push(decoded_message);
            assert(event_views(decoded_events@) =~= event_views(before).push(decoded_message@));
        }
    }
}

/// The decoder of container frames.
pub struct ContainerDecoder;

impl ContainerDecoder {
    /// Unpacks a container frame.
    ///
    /// The first event is the container's, with the PDUs found under the
    /// layout of the definition; the decoded messages of those PDUs follow
    /// in the order of the PDUs. A dynamic layout is refused, with
    /// `InvalidData`, where the header size is neither 4 nor 8 and the
    /// payload begins with a header of that size that is not a header of
    /// zeros.
    pub fn decode_container(
        frame: &CanFrame,
        container_def: &ContainerDefinition,
        signal_db: &SignalDatabase,
    ) -> (r: Result<Vec<DecodedEvent>, DecoderError>)
        requires
            signal_db.wf(),
        ensures
            r.is_err() == layout_refused(frame.data@, container_def.layout),
            r matches Err(e) ==> e is InvalidData,
            r matches Err(DecoderError::InvalidData(text)) ==> container_def.layout matches ContainerLayout::Dynamic {
                header_size,
                ..
            } && text@ == dynamic_refusal(header_size as int),
            r matches Ok(events) ==> event_views(events@) == container_events(
                frame.timestamp_ns,
                *container_def,
                *signal_db,
                layout_pdus(frame.data@, container_def.layout),
                !(container_def.layout is Queued),
            ),
    {
        match &container_def.layout {
            ContainerLayout::Static { pdus } => Self::decode_static_container(
                frame,
                container_def,
                pdus.as_slice(),
                signal_db,
            ),
            ContainerLayout::Dynamic { header_size, pdus } => Self::decode_dynamic_container(
                frame,
                container_def,
                *header_size,
                pdus.as_slice(),
                signal_db,
            ),
            ContainerLayout::Queued { pdu_id, pdu_size } => Self::decode_queued_container(
                frame,
                container_def,
                *pdu_id,
                *pdu_size,
                signal_db,
            ),
        }
    }

    /// Unpacks a static container: every PDU of the layout whose bytes lie
    /// within the payload is cut out; one that reaches beyond it is left
    /// out.
    pub fn decode_static_container(
        frame: &CanFrame,
        container_def: &ContainerDefinition,
        pdus: &[ContainedPduInfo],
        signal_db: &SignalDatabase,
    ) -> (r: Result<Vec<DecodedEvent>, DecoderError>)
        requires
            signal_db.wf(),
        ensures
            r matches Ok(events) && event_views(events@) == container_events(
                frame.timestamp_ns,
                *container_def,
                *signal_db,
                static_pdus(frame.data@, pdus@),
                true,
            ),
    {
        let mut contained_pdus: Vec<ContainedPdu> = Vec::new();
        let mut decoded_events: Vec<DecodedEvent> = Vec::new();
        let timestamp = frame.timestamp();
        let data = frame.data.as_slice();
        let mut i: usize = 0;
        while i < pdus.len()
            invariant
                i <= pdus@.len(),
                signal_db.wf(),
                data@ == frame.data@,
                timestamp == frame.timestamp_ns,
                pdu_views(contained_pdus@) == static_pdus(data@, pdus@.take(i as int)),
                event_views(decoded_events@) == contained_events(
                    *signal_db,
                    static_pdus(data@, pdus@.take(i as int)),
                    true,
                    timestamp,
                ),
            decreases pdus@.len() - i,
        {
            let pdu_info = &pdus[i];
            proof {
                let taken = pdus@.take(i + 1);
                assert(taken.drop_last() =~= pdus@.take(i as int));
                assert(taken.last() == *pdu_info);
            }
            if pdu_info.position <= data.len() && pdu_info.size <= data.len() - pdu_info.position {
                let end_pos = pdu_info.position + pdu_info.size;
                let pdu = ContainedPdu {
                    pdu_id: pdu_info.pdu_id,
                    name: pdu_info.name.clone(),
                    data: copy_range(data, pdu_info.position, end_pos),
                };
                let definition = signal_db.get_message_by_name(pdu_info.name.as_str());
                decode_contained(&pdu, definition, timestamp, &mut decoded_events);
                let ghost before = contained_pdus@;
                contained_pdus.push(pdu);
                proof {
                    assert(pdu_views(contained_pdus@) =~= pdu_views(before).push(pdu@));
                    assert(pdu_views(contained_pdus@).drop_last() =~= pdu_views(before));
                }
            }
            i += 1;
        }
        assert(pdus@.take(i as int) =~= pdus@);
        Ok(assemble(frame, container_def, contained_pdus, decoded_events))
    }

    /// Unpacks a dynamic container: header by header, each followed by the
    /// PDU it announces, until fewer bytes than a header remain, a header of
    /// zeros is met, or a header announces more bytes than remain. A payload
    /// shorter than one header holds no PDU and gives the container's event
    /// alone. A header size other than 4 and 8 is refused, with
    /// `InvalidData`, where a header of that size is met that is not a
    /// header of zeros.
    ///
    /// A short header of 4 bytes holds the identifier in two bytes, most
    /// significant first, and the length in one; a long header of 8 bytes
    /// holds both in four bytes each.
    pub fn decode_dynamic_container(
        frame: &CanFrame,
        container_def: &ContainerDefinition,
        header_size: usize,
        pdus: &[ContainedPduInfo],
        signal_db: &SignalDatabase,
    ) -> (r: Result<Vec<DecodedEvent>, DecoderError>)
        requires
            signal_db.wf(),
        ensures
            r.is_err() == dynamic_layout_refused(frame.data@, header_size as int),
            r matches Err(e) ==> e matches DecoderError::InvalidData(text) && text@
                == dynamic_refusal(header_size as int),
            r matches Ok(events) ==> event_views(events@) == container_events(
                frame.timestamp_ns,
                *container_def,
                *signal_db,
                if header_size == 4 || header_size == 8 {
                    dynamic_pdus(frame.data@, header_size as int, pdus@, 0)
                } else {
                    Seq::empty()
                },
                true,
            ),
    {
        let data = frame.data.as_slice();
        let timestamp = frame.timestamp();
        if header_size != 4 && header_size != 8 {
            if data.len() < header_size || range_is_zero(data, 0, header_size) {
                let none: Vec<ContainedPdu> = Vec::new();
                let nothing: Vec<DecodedEvent> = Vec::new();
                assert(pdu_views(none@) =~= Seq::<ContainedPduView>::empty());
                assert(event_views(nothing@) =~= Seq::<DecodedEventView>::empty());
                return Ok(assemble(frame, container_def, none, nothing));
            }
            return Err(
                DecoderError::InvalidData(
                    join("Unsupported header size: ", decimal_text(header_size as u64).as_str()),
                ),
            );
        }
        let mut contained_pdus: Vec<ContainedPdu> = Vec::new();
        let mut decoded_events: Vec<DecodedEvent> = Vec::new();
        let mut offset: usize = 0;
        let ghost all = dynamic_pdus(data@, header_size as int, pdus@, 0);
        while header_size <= data.len() - offset
            invariant
                offset <= data@.len(),
                header_size == 4 || header_size == 8,
                signal_db.wf(),
                data@ == frame.data@,
                timestamp == frame.timestamp_ns,
                all == pdu_views(contained_pdus@) + dynamic_pdus(
                    data@,
                    header_size as int,
                    pdus@,
                    offset as int,
                ),
                event_views(decoded_events@) == contained_events(
                    *signal_db,
                    pdu_views(contained_pdus@),
                    true,
                    timestamp,
                ),
            ensures
                all == pdu_views(contained_pdus@),
                event_views(decoded_events@) == contained_events(
                    *signal_db,
                    pdu_views(contained_pdus@),
                    true,
                    timestamp,
                ),
            decreases data@.len() - offset,
        {
            let ghost header = data@.subrange(offset as int, offset + header_size);
            if range_is_zero(data, offset, offset + header_size) {
                assert(all =~= pdu_views(contained_pdus@));
                break;
            }
            let pdu_id: u32 = if header_size == 4 {
                (data[offset] as u32) * 256 + (data[offset + 1] as u32)
            } else {
                (data[offset] as u32) * 0x100_0000 + (data[offset + 1] as u32) * 0x1_0000 + (
                data[offset + 2] as u32) * 0x100 + (data[offset + 3] as u32)
            };
            let pdu_length: u64 = if header_size == 4 {
                data[offset + 2] as u64
            } else {
                (data[offset + 4] as u64) * 0x100_0000 + (data[offset + 5] as u64) * 0x1_0000 + (
                data[offset + 6] as u64) * 0x100 + (data[offset + 7] as u64)
            };
            assert(pdu_id == header_pdu_id(header));
            assert(pdu_length == header_pdu_length(header));
            let start = offset + header_size;
            if pdu_length > (data.len() - start) as u64 {
                assert(all =~= pdu_views(contained_pdus@));
                break;
            }
            let end = start + pdu_length as usize;
            let name = match find_known(pdus, pdu_id) {
                Some(known) => known.clone(),
                None => join("PDU_", decimal_text(pdu_id as u64).as_str()),
            };
            let pdu = ContainedPdu { pdu_id, name, data: copy_range(data, start, end) };
            let definition = signal_db.get_message_by_name(pdu.name.as_str());
            decode_contained(&pdu, definition, timestamp, &mut decoded_events);
            let ghost before = contained_pdus@;
            contained_pdus.push(pdu);
            proof {
                assert(pdu_views(contained_pdus@) =~= pdu_views(before).push(pdu@));
                assert(pdu_views(contained_pdus@).drop_last() =~= pdu_views(before));
                assert(all =~= pdu_views(contained_pdus@) + dynamic_pdus(
                    data@,
                    header_size as int,
                    pdus@,
                    end as int,
                ));
            }
            offset = end;
        }
        proof {
            if !(header_size <= data.len() - offset) {
                assert(all =~= pdu_views(contained_pdus@));
            }
        }
        Ok(assemble(frame, container_def, contained_pdus, decoded_events))
    }

    /// Unpacks a queued container: instances of `pdu_size` bytes from the
    /// start of the payload on, until fewer bytes than one instance remain
    /// or an instance of zeros is met. The instances are decoded with the
    /// message whose CAN identifier is `pdu_id`.
    pub fn decode_queued_container(
        frame: &CanFrame,
        container_def: &ContainerDefinition,
        pdu_id: u32,
        pdu_size: usize,
        signal_db: &SignalDatabase,
    ) -> (r: Result<Vec<DecodedEvent>, DecoderError>)
        requires
            signal_db.wf(),
        ensures
            r matches Ok(events) && event_views(events@) == container_events(
                frame.timestamp_ns,
                *container_def,
                *signal_db,
                queued_pdus(frame.data@, pdu_id, pdu_size as int, 0, 0),
                false,
            ),
    {
        let data = frame.data.as_slice();
        let timestamp = frame.timestamp();
        let mut contained_pdus: Vec<ContainedPdu> = Vec::new();
        let mut decoded_events: Vec<DecodedEvent> = Vec::new();
        let mut offset: usize = 0;
        let mut instance: usize = 0;
        let ghost all = queued_pdus(data@, pdu_id, pdu_size as int, 0, 0);
        let definition = signal_db.get_message(pdu_id);
        while pdu_size > 0 && pdu_size <= data.len() - offset
            invariant
                offset <= data@.len(),
                instance <= offset,
                signal_db.wf(),
                data@ == frame.data@,
                timestamp == frame.timestamp_ns,
                definition.is_some() == signal_db.message(pdu_id).is_some(),
                definition matches Some(m) ==> Some(*m) == signal_db.message(pdu_id),
                all == pdu_views(contained_pdus@) + queued_pdus(
                    data@,
                    pdu_id,
                    pdu_size as int,
                    offset as int,
                    instance as nat,
                ),
                forall|k: int|
                    0 <= k < contained_pdus@.len() ==> (#[trigger] contained_pdus@[k]).pdu_id
                        == pdu_id,
                event_views(decoded_events@) == contained_events(
                    *signal_db,
                    pdu_views(contained_pdus@),
                    false,
                    timestamp,
                ),
            ensures
                all == pdu_views(contained_pdus@),
                event_views(decoded_events@) == contained_events(
                    *signal_db,
                    pdu_views(contained_pdus@),
                    false,
                    timestamp,
                ),
            decreases data@.len() - offset,
        {
            let end = offset + pdu_size;
            if range_is_zero(data, offset, end) {
                assert(all =~= pdu_views(contained_pdus@));
                break;
            }
            let prefix = join("PDU_", decimal_text(pdu_id as u64).as_str());
            let stem = join(prefix.as_str(), "_");
            let name = join(stem.as_str(), decimal_text(instance as u64).as_str());
            let pdu = ContainedPdu { pdu_id, name, data: copy_range(data, offset, end) };
            decode_contained(&pdu, definition, timestamp, &mut decoded_events);
            let ghost before = contained_pdus@;
            contained_pdus.push(pdu);
            proof {
                assert(pdu_views(contained_pdus@) =~= pdu_views(before).push(pdu@));
                assert(pdu_views(contained_pdus@).drop_last() =~= pdu_views(before));
                assert(all =~= pdu_views(contained_pdus@) + queued_pdus(
                    data@,
                    pdu_id,
                    pdu_size as int,
                    end as int,
                    (instance + 1) as nat,
                ));
            }
            offset = end;
            instance += 1;
        }
        proof {
            if !(pdu_size > 0 && pdu_size <= data.len() - offset) {
                assert(all =~= pdu_views(contained_pdus@));
            }
        }
        Ok(assemble(frame, container_def, contained_pdus, decoded_events))
    }
}

} // verus!
