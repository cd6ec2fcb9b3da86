//! The reading of DBC text with the crate `can-dbc`.
//!
//! The crate parses the text; its messages and signals are copied field by
//! field into the records that the conversion works on. What the crate
//! reads from a text bears a name here, and the records are those it names.

use vstd::prelude::*;
use crate::scalar::Scalar;
use crate::signals::database::{ByteOrder, MessageDefinition, ValueType};
use crate::signals::dbc::{
    convert_messages, converted_from, has_double_scalars, have_double_scalars,
    lemma_same_records_convert_alike, message_has_double_scalars, same_message, same_records,
    DbcMessage, DbcSignal, MultiplexIndicator, ValueLabel,
};
use crate::text::{join, push_char};
use crate::types::{option_text, DecoderError};

verus! {

/// A parsed DBC file of the crate `can-dbc`.
#[verifier::external_type_specification]
#[verifier::external_body]
pub struct ExDbc(can_dbc::DBC);

/// The error type of the crate `can-dbc`.
#[verifier::external_type_specification]
#[verifier::external_body]
pub struct ExError<'a>(can_dbc::Error<'a>);

/// Whether the crate `can-dbc` accepts a text as a DBC file: whether
/// `DBC::from_slice` parses the bytes of the text to the end.
pub uninterp spec fn dbc_accepted(text: Seq<char>) -> bool;

/// The messages that the crate `can-dbc` reads from a text that it accepts,
/// in the order of the text: what [`file_records`] is of the file that
/// `DBC::from_slice` gives for the bytes of the text.
pub uninterp spec fn dbc_records(text: Seq<char>) -> Seq<DbcMessage>;

/// The messages that a parsed file holds, as records and in the order of
/// `DBC::messages`. A record has the identifier, name, size and sending
/// node of its message (none for the placeholder `Vector__XXX`) and one
/// record for each of its signals, in the order of `Message::signals`. The
/// record of a signal has the signal's name, role in multiplexing, start
/// bit, size, byte order, value type and unit, its factor, offset, minimum
/// and maximum as binary64 values, and the labels that
/// `DBC::value_descriptions_for_signal` finds for the message's identifier
/// and the signal's name, each with its value cut to an integer.
pub uninterp spec fn file_records(dbc: can_dbc::DBC) -> Seq<DbcMessage>;

/// Whether a parsed file holds a message `i` with a signal `k`.
pub open spec fn has_signal(dbc: can_dbc::DBC, i: usize, k: usize) -> bool {
    i < file_records(dbc).len() && k < file_records(dbc)[i as int].signals@.len()
}

/// The record of signal `k` of message `i` of a parsed file.
pub open spec fn signal_record(dbc: can_dbc::DBC, i: usize, k: usize) -> DbcSignal {
    file_records(dbc)[i as int].signals@[k as int]
}

/// Parses DBC text, `DBC::from_slice` on the bytes of the text. Whether the
/// text is accepted, and what the parsed file holds, depend on the text
/// alone.
#[verifier::external_body]
fn parse_text<'a>(text: &'a str) -> (r: Result<can_dbc::DBC, can_dbc::Error<'a>>)
    ensures
        r.is_ok() == dbc_accepted(text@),
        r matches Ok(dbc) ==> file_records(dbc) == dbc_records(text@),
{
    can_dbc::DBC::from_slice(text.as_bytes())
}

/// The description of a parse error, its `Debug` form.
#[verifier::external_body]
fn error_text(error: &can_dbc::Error) -> (r: String) {
    format!("{:?}", error)
}

/// The number of messages of a parsed file, the length of `DBC::messages`.
#[verifier::external_body]
fn message_count(dbc: &can_dbc::DBC) -> (r: usize)
    ensures
        r == file_records(*dbc).len(),
{
    dbc.messages().len()
}

/// Identifier, name, size and sending node of message `i` of a parsed
/// file: `message_id`, `message_name`, `message_size` and `transmitter`,
/// the latter being a node's name or none.
#[verifier::external_body]
fn message_header(dbc: &can_dbc::DBC, i: usize) -> (r: (u32, String, u64, Option<String>))
    requires
        i < file_records(*dbc).len(),
    ensures
        r.0 == file_records(*dbc)[i as int].id,
        r.1@ == file_records(*dbc)[i as int].name@,
        r.2 == file_records(*dbc)[i as int].size,
        option_text(r.3) == option_text(file_records(*dbc)[i as int].transmitter),
{
    let message = &dbc.messages()[i];
    let sender = match message.transmitter() {
        can_dbc::Transmitter::NodeName(name) => Some(name.clone()),
        can_dbc::Transmitter::VectorXXX => None,
    };
    (message.message_id().0, message.message_name().clone(), *message.message_size(), sender)
}

/// The number of signals of message `i` of a parsed file, the length of
/// `Message::signals`.
#[verifier::external_body]
fn signal_count(dbc: &can_dbc::DBC, i: usize) -> (r: usize)
    requires
        i < file_records(*dbc).len(),
    ensures
        r == file_records(*dbc)[i as int].signals@.len(),
{
    dbc.messages()[i].signals().len()
}

/// Name and unit of a signal, `Signal::name` and `Signal::unit`.
#[verifier::external_body]
fn signal_texts(dbc: &can_dbc::DBC, i: usize, k: usize) -> (r: (String, String))
    requires
        has_signal(*dbc, i, k),
    ensures
        r.0 == signal_record(*dbc, i, k).name,
        r.1 == signal_record(*dbc, i, k).unit,
{
    let signal = &dbc.messages()[i].signals()[k];
    (signal.name().clone(), signal.unit().clone())
}

/// Start bit, size, byte order and value type of a signal: `start_bit`,
/// `signal_size`, `byte_order` and `value_type`.
#[verifier::external_body]
fn signal_layout(dbc: &can_dbc::DBC, i: usize, k: usize) -> (r: (u64, u64, ByteOrder, ValueType))
    requires
        has_signal(*dbc, i, k),
    ensures
        r.0 == signal_record(*dbc, i, k).start_bit,
        r.1 == signal_record(*dbc, i, k).signal_size,
        r.2 == signal_record(*dbc, i, k).byte_order,
        r.3 == signal_record(*dbc, i, k).value_type,
{
    let signal = &dbc.messages()[i].signals()[k];
    let order = match signal.byte_order() {
        can_dbc::ByteOrder::LittleEndian => ByteOrder::LittleEndian,
        can_dbc::ByteOrder::BigEndian => ByteOrder::BigEndian,
    };
    let value_type = match signal.value_type() {
        can_dbc::ValueType::Signed => ValueType::Signed,
        can_dbc::ValueType::Unsigned => ValueType::Unsigned,
    };
    (*signal.start_bit(), *signal.signal_size(), order, value_type)
}

/// Factor, offset, minimum and maximum of a signal, each as the bit pattern
/// of the binary64 value that the crate holds.
#[verifier::external_body]
fn signal_scaling(dbc: &can_dbc::DBC, i: usize, k: usize) -> (r: (Scalar, Scalar, Scalar, Scalar))
    requires
        has_signal(*dbc, i, k),
    ensures
        r.0 is Double && r.0 == signal_record(*dbc, i, k).factor,
        r.1 is Double && r.1 == signal_record(*dbc, i, k).offset,
        r.2 is Double && r.2 == signal_record(*dbc, i, k).min,
        r.3 is Double && r.3 == signal_record(*dbc, i, k).max,
{
    let signal = &dbc.messages()[i].signals()[k];
    (
        Scalar::Double(signal.factor().to_bits()),
        Scalar::Double(signal.offset().to_bits()),
        Scalar::Double(signal.min().to_bits()),
        Scalar::Double(signal.max().to_bits()),
    )
}

/// The role of a signal in multiplexing, `Signal::multiplexer_indicator`.
#[verifier::external_body]
fn signal_multiplexing(dbc: &can_dbc::DBC, i: usize, k: usize) -> (r: MultiplexIndicator)
    requires
        has_signal(*dbc, i, k),
    ensures
        r == signal_record(*dbc, i, k).multiplexer_indicator,
{
    match dbc.messages()[i].signals()[k].multiplexer_indicator() {
        can_dbc::MultiplexIndicator::Multiplexor => MultiplexIndicator::Multiplexor,
        can_dbc::MultiplexIndicator::MultiplexedSignal(v) => MultiplexIndicator::MultiplexedSignal(*v),
        can_dbc::MultiplexIndicator::MultiplexorAndMultiplexedSignal(v) => {
            MultiplexIndicator::MultiplexorAndMultiplexedSignal(*v)
        },
        can_dbc::MultiplexIndicator::Plain => MultiplexIndicator::Plain,
    }
}

/// The labels that a file gives to the values of a signal,
/// `DBC::value_descriptions_for_signal` for the identifier of the signal's
/// message and the signal's name; each binary64 value is cut to an integer
/// by the cast of the language.
#[verifier::external_body]
fn signal_labels(dbc: &can_dbc::DBC, i: usize, k: usize) -> (r: Option<Vec<ValueLabel>>)
    requires
        has_signal(*dbc, i, k),
    ensures
        r == signal_record(*dbc, i, k).value_labels,
{
    let message = &dbc.messages()[i];
    let name = message.signals()[k].name();
    match dbc.value_descriptions_for_signal(*message.message_id(), name) {
        Some(list) => Some(
            list.iter().map(|d| ValueLabel { raw: *d.a() as i64, label: d.b().clone() }).collect(),
        ),
        None => None,
    }
}

/// Reads text as UTF-8, `core::str::from_utf8`: bytes that are valid UTF-8
/// give the text they encode, others give nothing.
#[verifier::external_body]
fn utf8_text(bytes: &[u8]) -> (r: Option<&str>)
    ensures
        r.is_some() == vstd::utf8::valid_utf8(bytes@),
        r matches Some(t) ==> t@ == vstd::utf8::decode_utf8(bytes@),
{
    core::str::from_utf8(bytes).ok()
}

/// The text that bytes stand for in Latin-1: each byte is the character of
/// the same code point.
pub open spec fn latin1(bytes: Seq<u8>) -> Seq<char> {
    bytes.map_values(|b: u8| b as char)
}

/// The text of a DBC file: what its bytes encode in UTF-8 where they are
/// valid UTF-8, else what they stand for in Latin-1.
pub open spec fn file_text(bytes: Seq<u8>) -> Seq<char> {
    if vstd::utf8::valid_utf8(bytes) {
        vstd::utf8::decode_utf8(bytes)
    } else {
        latin1(bytes)
    }
}

/// Decodes the bytes of a DBC file: as UTF-8 where they are valid UTF-8,
/// else as Latin-1. No file is refused for its encoding.
pub fn decode_text(bytes: &[u8]) -> (r: String)
    ensures
        r@ == file_text(bytes@),
{
    match utf8_text(bytes) {
        Some(t) => t.to_owned(),
        None => {
            let mut text = String::new();
            let mut i: usize = 0;
            while i < bytes.len()
                invariant
                    i <= bytes@.len(),
                    text@ == latin1(bytes@.take(i as int)),
                decreases bytes@.len() - i,
            {
                push_char(&mut text, bytes[i] as char);
                assert(latin1(bytes@.take(i + 1)) =~= latin1(bytes@.take(i as int)).push(
                    bytes@[i as int] as char,
                ));
                i += 1;
            }
            assert(bytes@.take(i as int) =~= bytes@);
            text
        },
    }
}

/// Copies a signal of a parsed file into a record: its name, role, layout,
/// scaling and unit as the crate `can-dbc` holds them, and the labels that
/// the file gives to its values. The scalars of the record are the binary64
/// values of the crate.
fn read_signal(dbc: &can_dbc::DBC, i: usize, k: usize) -> (r: DbcSignal)
    requires
        has_signal(*dbc, i, k),
    ensures
        r == signal_record(*dbc, i, k),
        has_double_scalars(r),
{
    let (name, unit) = signal_texts(dbc, i, k);
    let (start_bit, signal_size, byte_order, value_type) = signal_layout(dbc, i, k);
    let (factor, offset, min, max) = signal_scaling(dbc, i, k);
    let value_labels = signal_labels(dbc, i, k);
    DbcSignal {
        name,
        multiplexer_indicator: signal_multiplexing(dbc, i, k),
        start_bit,
        signal_size,
        byte_order,
        value_type,
        factor,
        offset,
        min,
        max,
        unit,
        value_labels,
    }
}

/// Copies a message of a parsed file into a record: its identifier, name,
/// size and sending node as the crate `can-dbc` holds them, and a record
/// for each of its signals, in their order.
fn read_message(dbc: &can_dbc::DBC, i: usize) -> (r: DbcMessage)
    requires
        i < file_records(*dbc).len(),
    ensures
        same_message(r, file_records(*dbc)[i as int]),
        message_has_double_scalars(r),
{
    let (id, name, size, transmitter) = message_header(dbc, i);
    let count = signal_count(dbc, i);
    let mut signals: Vec<DbcSignal> = Vec::new();
    let mut k: usize = 0;
    while k < count
        invariant
            i < file_records(*dbc).len(),
            count == file_records(*dbc)[i as int].signals@.len(),
            k <= count,
            signals@.len() == k,
            forall|j: int|
                0 <= j < k ==> #[trigger] signals@[j] == file_records(*dbc)[i as int].signals@[j]
                    && has_double_scalars(signals@[j]),
        decreases count - k,
    {
        signals.push(read_signal(dbc, i, k));
        k += 1;
    }
    assert(signals@ =~= file_records(*dbc)[i as int].signals@);
    DbcMessage { id, name, size, transmitter, signals }
}

/// Whether an error is what a text that the crate `can-dbc` refuses gives:
/// `DbcParseError` with a message that begins with
/// `Failed to parse DBC file: ` and goes on with the crate's description of
/// the failure.
pub open spec fn is_dbc_refusal(e: DecoderError) -> bool {
    e matches DecoderError::DbcParseError(text) && "Failed to parse DBC file: "@.is_prefix_of(text@)
}

/// Reads the messages of DBC text into records, in the order of the file.
///
/// It is the crate `can-dbc` that accepts or refuses the text. Text that is
/// refused gives `DbcParseError` with the crate's description of the
/// failure; text that is accepted gives the records of the messages that
/// the crate read from it, with binary64 values as scalars.
pub fn read_messages(text: &str) -> (r: Result<Vec<DbcMessage>, DecoderError>)
    ensures
        r.is_ok() == dbc_accepted(text@),
        r matches Err(e) ==> is_dbc_refusal(e),
        r matches Ok(records) ==> same_records(records@, dbc_records(text@))
            && have_double_scalars(records@),
{
    match parse_text(text) {
        Ok(dbc) => {
            let count = message_count(&dbc);
            let mut messages: Vec<DbcMessage> = Vec::new();
            let mut i: usize = 0;
            while i < count
                invariant
                    count == file_records(dbc).len(),
                    i <= count,
                    messages@.len() == i,
                    forall|k: int|
                        0 <= k < i ==> same_message(#[trigger] messages@[k], file_records(dbc)[k])
                            && message_has_double_scalars(messages@[k]),
                decreases count - i,
            {
                messages.push(read_message(&dbc, i));
                i += 1;
            }
            Ok(messages)
        },
        Err(e) => {
            let text = join("Failed to parse DBC file: ", error_text(&e).as_str());
            assert(text@.subrange(0, "Failed to parse DBC file: "@.len() as int)
                =~= "Failed to parse DBC file: "@);
            Err(DecoderError::DbcParseError(text))
        },
    }
}

/// Reads the message definitions of a DBC file held in memory.
///
/// The bytes are decoded as [`decode_text`] states, and the text is handed
/// to the crate `can-dbc`. Text that the crate refuses gives
/// `DbcParseError`. For text that it accepts, the result is what
/// [`convert_messages`] gives for the records that the crate read from the
/// text: the definitions of all messages, or `InvalidSignalDefinition`
/// where a signal is gated and its message has no multiplexer.
pub fn parse_dbc_file(content: &[u8], source: &str) -> (r: Result<
    Vec<MessageDefinition>,
    DecoderError,
>)
    ensures
        !dbc_accepted(file_text(content@)) ==> (r matches Err(e) && is_dbc_refusal(e)),
        dbc_accepted(file_text(content@)) ==> converted_from(
            dbc_records(file_text(content@)),
            source@,
            r,
        ),
{
    let text = decode_text(content);
    match read_messages(text.as_str()) {
        Ok(messages) => {
            let r = convert_messages(&messages, source);
            proof {
                lemma_same_records_convert_alike(messages@, dbc_records(text@), source@, r);
            }
            r
        },
        Err(e) => Err(e),
    }
}

} // verus!
