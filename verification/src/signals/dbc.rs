//! Reading of DBC files.
//!
//! The grammar of the format is read by the crate `can-dbc`. What that crate
//! finds is copied into records of plain values, and the records are turned
//! into message and signal definitions here.

use std::collections::HashMap;
use vstd::prelude::*;
use vstd::string::StringExecFns;
use crate::scalar::Scalar;
use crate::signals::database::{
    message_definition_views, signal_definition_views, ByteOrder, MessageDefinition,
    MessageDefinitionView, MultiplexerInfo, MultiplexerInfoView, SignalDefinition,
    SignalDefinitionView, ValueType,
};
use crate::text::join;
use crate::types::{option_text, DecoderError};

verus! {

broadcast use vstd::std_specs::hash::group_hash_axioms;

/// The role of a signal in the multiplexing of its message.
#[derive(Debug, Clone, Copy, PartialEq, Eq, Structural)]
pub enum MultiplexIndicator {
    /// The signal is the multiplexer.
    Multiplexor,
    /// The signal is present for one value of the multiplexer.
    MultiplexedSignal(u64),
    /// The signal is present for one value of a multiplexer and is itself
    /// one.
    MultiplexorAndMultiplexedSignal(u64),
    /// The signal is always present.
    Plain,
}

/// The label of one raw value.
#[derive(Debug, Clone, PartialEq)]
pub struct ValueLabel {
    pub raw: i64,
    pub label: String,
}

/// A signal as a DBC file describes it.
#[derive(Debug, Clone, PartialEq)]
pub struct DbcSignal {
    pub name: String,
    pub multiplexer_indicator: MultiplexIndicator,
    pub start_bit: u64,
    pub signal_size: u64,
    pub byte_order: ByteOrder,
    pub value_type: ValueType,
    pub factor: Scalar,
    pub offset: Scalar,
    pub min: Scalar,
    pub max: Scalar,
    pub unit: String,
    /// The labels of the signal's values, where the file gives any.
    pub value_labels: Option<Vec<ValueLabel>>,
}

/// A message as a DBC file describes it.
#[derive(Debug, Clone, PartialEq)]
pub struct DbcMessage {
    pub id: u32,
    pub name: String,
    pub size: u64,
    /// The sending node, where the file names one.
    pub transmitter: Option<String>,
    pub signals: Vec<DbcSignal>,
}

/// The table that a list of labels stands for; of two labels of one raw
/// value the later one counts.
pub open spec fn label_table(labels: Seq<ValueLabel>) -> Map<i64, Seq<char>>
    decreases labels.len(),
{
    if labels.len() == 0 {
        Map::empty()
    } else {
        label_table(labels.drop_last()).insert(labels.last().raw, labels.last().label@)
    }
}

/// The position of the first signal that is a multiplexer, or the number of
/// signals where there is none.
pub open spec fn multiplexor_at(signals: Seq<DbcSignal>) -> int
    decreases signals.len(),
{
    if signals.len() == 0 {
        0
    } else if signals[0].multiplexer_indicator == MultiplexIndicator::Multiplexor {
        0
    } else {
        1 + multiplexor_at(signals.drop_first())
    }
}

/// The name of the multiplexer of a message: that of its first signal that
/// is a multiplexer.
pub open spec fn multiplexor_name(signals: Seq<DbcSignal>) -> Option<Seq<char>> {
    if multiplexor_at(signals) < signals.len() {
        Some(signals[multiplexor_at(signals)].name@)
    } else {
        None
    }
}

/// Whether a signal is gated by a multiplexer.
pub open spec fn is_gated(signal: DbcSignal) -> bool {
    signal.multiplexer_indicator is MultiplexedSignal
}

/// Whether a signal is marked as a multiplexer, as gated, or as both.
pub open spec fn is_marked(signal: DbcSignal) -> bool {
    signal.multiplexer_indicator != MultiplexIndicator::Plain
}

/// Whether a message is multiplexed: one of its signals is marked as a
/// multiplexer or as gated.
pub open spec fn has_multiplexing(signals: Seq<DbcSignal>) -> bool {
    exists|i: int| 0 <= i < signals.len() && is_marked(#[trigger] signals[i])
}

/// A message with a multiplexer is multiplexed.
pub proof fn lemma_multiplexor_is_marked(signals: Seq<DbcSignal>)
    ensures
        0 <= multiplexor_at(signals) <= signals.len(),
        multiplexor_at(signals) < signals.len() ==> signals[multiplexor_at(
            signals,
        )].multiplexer_indicator == MultiplexIndicator::Multiplexor && has_multiplexing(signals),
    decreases signals.len(),
{
    if signals.len() > 0 && signals[0].multiplexer_indicator != MultiplexIndicator::Multiplexor {
        let rest = signals.drop_first();
        lemma_multiplexor_is_marked(rest);
        assert(multiplexor_at(signals) == 1 + multiplexor_at(rest));
        if multiplexor_at(rest) < rest.len() {
            assert(signals[multiplexor_at(signals)] == rest[multiplexor_at(rest)]);
            assert(is_marked(signals[multiplexor_at(signals)]));
        }
    } else if signals.len() > 0 {
        assert(is_marked(signals[0]));
    }
}

/// Whether a signal cannot be converted: it is gated and its message has no
/// multiplexer.
pub open spec fn signal_refused(signal: DbcSignal, multiplexer: Option<Seq<char>>) -> bool {
    is_gated(signal) && multiplexer.is_none()
}

/// The definition of a signal of a DBC file. Start bit and length are cut
/// to 16 bits, an empty unit counts as none, and a gated signal is gated by
/// the multiplexer of its message at its one value.
pub open spec fn converted_signal(signal: DbcSignal, multiplexer: Option<Seq<char>>) -> SignalDefinitionView {
    SignalDefinitionView {
        name: signal.name@,
        start_bit: (signal.start_bit % 0x1_0000) as u16,
        length: (signal.signal_size % 0x1_0000) as u16,
        byte_order: signal.byte_order,
        value_type: signal.value_type,
        factor: signal.factor,
        offset: signal.offset,
        min: signal.min,
        max: signal.max,
        unit: if signal.unit@.len() == 0 {
            None
        } else {
            Some(signal.unit@)
        },
        value_table: match signal.value_labels {
            Some(labels) => Some(label_table(labels@)),
            None => None,
        },
        multiplexer_info: match (signal.multiplexer_indicator, multiplexer) {
            (MultiplexIndicator::MultiplexedSignal(v), Some(name)) => Some(
                MultiplexerInfoView { multiplexer_signal: name, multiplexer_values: seq![v] },
            ),
            _ => None,
        },
    }
}

/// The definitions of the signals of a message, in their order.
pub open spec fn converted_signals(signals: Seq<DbcSignal>, multiplexer: Option<Seq<char>>) -> Seq<
    SignalDefinitionView,
> {
    signals.map_values(|s: DbcSignal| converted_signal(s, multiplexer))
}

/// Whether a message cannot be converted: one of its signals is gated and
/// it has no multiplexer.
pub open spec fn message_refused(message: DbcMessage) -> bool {
    exists|i: int|
        0 <= i < message.signals@.len() && signal_refused(
            #[trigger] message.signals@[i],
            multiplexor_name(message.signals@),
        )
}

/// The definition of a message of a DBC file. The size is cut to the
/// machine's word.
pub open spec fn converted_message(message: DbcMessage, source: Seq<char>) -> MessageDefinitionView {
    MessageDefinitionView {
        id: message.id,
        name: message.name@,
        size: message.size as usize,
        sender: match message.transmitter {
            Some(t) => Some(t@),
            None => None,
        },
        signals: converted_signals(message.signals@, multiplexor_name(message.signals@)),
        is_multiplexed: has_multiplexing(message.signals@),
        multiplexer_signal: multiplexor_name(message.signals@),
        source,
    }
}

/// The characters of an optional borrowed text.
pub open spec fn borrowed(name: Option<&str>) -> Option<Seq<char>> {
    match name {
        Some(n) => Some(n@),
        None => None,
    }
}

/// Builds the table of a list of labels.
fn build_table(labels: &Vec<ValueLabel>) -> (r: HashMap<i64, String>)
    ensures
        r@.map_values(|label: String| label@) == label_table(labels@),
{
    let mut table: HashMap<i64, String> = HashMap::new();
    let mut i: usize = 0;
    assert(table@.map_values(|label: String| label@) =~= Map::<i64, Seq<char>>::empty());
    while i < labels.len()
        invariant
            i <= labels@.len(),
            table@.map_values(|label: String| label@) == label_table(labels@.take(i as int)),
        decreases labels@.len() - i,
    {
        proof {
            let taken = labels@.take(i + 1);
            assert(taken.drop_last() =~= labels@.take(i as int));
            assert(taken.last() == labels@[i as int]);
        }
        let ghost before = table@;
        let label = labels[i].label.clone();
        table.insert(labels[i].raw, label);
        assert(table@.map_values(|label: String| label@) =~= before.map_values(
            |label: String| label@,
        ).insert(labels@[i as int].raw, labels@[i as int].label@));
        i += 1;
    }
    assert(labels@.take(i as int) =~= labels@);
    table
}

/// Converts a signal of a DBC file into a signal definition.
///
/// A gated signal in a message without multiplexer is refused with
/// `InvalidSignalDefinition`.
pub fn convert_signal(dbc_sig: &DbcSignal, multiplexer_signal_name: Option<&str>) -> (r: Result<
    SignalDefinition,
    DecoderError,
>)
    ensures
        r.is_err() == signal_refused(*dbc_sig, borrowed(multiplexer_signal_name)),
        r matches Err(e) ==> e matches DecoderError::InvalidSignalDefinition(text) && text@
            == "Multiplexed signal '"@ + dbc_sig.name@ + "' but no multiplexer found"@,
        r matches Ok(s) ==> s@ == converted_signal(*dbc_sig, borrowed(multiplexer_signal_name)),
{
    let multiplexer_info = match dbc_sig.multiplexer_indicator {
        MultiplexIndicator::MultiplexedSignal(switch_value) => match multiplexer_signal_name {
            Some(name) => {
                let mut values: Vec<u64> = Vec::new();
                values.push(switch_value);
                assert(values@ =~= seq![switch_value]);
                Some(
                    MultiplexerInfo {
                        multiplexer_signal: String::from_str(name),
                        multiplexer_values: values,
                    },
                )
            },
            None => {
                let text = join(
                    join("Multiplexed signal '", dbc_sig.name.as_str()).as_str(),
                    "' but no multiplexer found",
                );
                return Err(DecoderError::InvalidSignalDefinition(text));
            },
        },
        _ => None,
    };
    let start_bit = dbc_sig.start_bit;
    let signal_size = dbc_sig.signal_size;
    assert(start_bit as u16 == start_bit % 0x1_0000) by (bit_vector);
    assert(signal_size as u16 == signal_size % 0x1_0000) by (bit_vector);
    let value_table = match &dbc_sig.value_labels {
        Some(labels) => Some(build_table(labels)),
        None => None,
    };
    Ok(
        SignalDefinition {
            name: dbc_sig.name.clone(),
            start_bit: #[verifier::truncate]
            (start_bit as u16),
            length: #[verifier::truncate]
            (signal_size as u16),
            byte_order: dbc_sig.byte_order,
            value_type: dbc_sig.value_type,
            factor: dbc_sig.factor,
            offset: dbc_sig.offset,
            min: dbc_sig.min,
            max: dbc_sig.max,
            unit: if dbc_sig.unit.as_str().unicode_len() == 0 {
                None
            } else {
                Some(dbc_sig.unit.clone())
            },
            value_table,
            multiplexer_info,
        },
    )
}

/// Converts a message of a DBC file into a message definition.
///
/// The multiplexer of the message is its first signal marked as one, and
/// the message is multiplexed where a signal is marked as a multiplexer or
/// as gated. The message is refused, with `InvalidSignalDefinition`, where
/// a signal is gated and the message has no multiplexer.
pub fn convert_message(dbc_msg: &DbcMessage, source: &str) -> (r: Result<
    MessageDefinition,
    DecoderError,
>)
    ensures
        r.is_err() == message_refused(*dbc_msg),
        r matches Err(e) ==> e is InvalidSignalDefinition,
        r matches Ok(m) ==> m@ == converted_message(*dbc_msg, source@),
{
    let signals = &dbc_msg.signals;
    let mut is_multiplexed = false;
    let mut multiplexer: Option<usize> = None;
    let mut i: usize = 0;
    assert(signals@.skip(0) =~= signals@);
    while i < signals.len()
        invariant_except_break
            multiplexer.is_none(),
            multiplexor_at(signals@) == i + multiplexor_at(signals@.skip(i as int)),
            is_multiplexed == exists|j: int| 0 <= j < i && is_marked(#[trigger] signals@[j]),
        invariant
            i <= signals@.len(),
        ensures
            match multiplexer {
                Some(at) => at == multiplexor_at(signals@) && at < signals@.len(),
                None => multiplexor_at(signals@) == signals@.len() && is_multiplexed
                    == has_multiplexing(signals@),
            },
        decreases signals@.len() - i,
    {
        assert(signals@.skip(i as int)[0] == signals@[i as int]);
        assert(signals@.skip(i as int).drop_first() =~= signals@.skip(i + 1));
        match signals[i].multiplexer_indicator {
            MultiplexIndicator::Multiplexor => {
                multiplexer = Some(i);
                break;
            },
            MultiplexIndicator::MultiplexedSignal(_) => {
                is_multiplexed = true;
            },
            MultiplexIndicator::MultiplexorAndMultiplexedSignal(_) => {
                is_multiplexed = true;
            },
            MultiplexIndicator::Plain => {},
        }
        i += 1;
    }
    let multiplexer_name: Option<&str> = match multiplexer {
        Some(at) => {
            is_multiplexed = true;
            Some(signals[at].name.as_str())
        },
        None => None,
    };
    proof {
        lemma_multiplexor_is_marked(signals@);
    }
    assert(borrowed(multiplexer_name) == multiplexor_name(signals@));
    assert(is_multiplexed == has_multiplexing(signals@));
    let mut converted: Vec<SignalDefinition> = Vec::new();
    let mut k: usize = 0;
    while k < signals.len()
        invariant
            k <= signals@.len(),
            signals@ == dbc_msg.signals@,
            borrowed(multiplexer_name) == multiplexor_name(signals@),
            converted@.len() == k,
            forall|j: int|
                0 <= j < k ==> !signal_refused(
                    #[trigger] signals@[j],
                    multiplexor_name(signals@),
                ) && converted@[j]@ == converted_signal(signals@[j], multiplexor_name(signals@)),
        decreases signals@.len() - k,
    {
        match convert_signal(&signals[k], multiplexer_name) {
            Ok(signal) => {
                converted.push(signal);
            },
            Err(e) => {
                assert(signal_refused(signals@[k as int], multiplexor_name(signals@)));
                return Err(e);
            },
        }
        k += 1;
    }
    assert(signal_definition_views(converted@) =~= converted_signals(
        signals@,
        multiplexor_name(signals@),
    ));
    let size = dbc_msg.size;
    Ok(
        MessageDefinition {
            id: dbc_msg.id,
            name: dbc_msg.name.clone(),
            size: #[verifier::truncate]
            (size as usize),
            sender: crate::message_decoder::clone_text(&dbc_msg.transmitter),
            signals: converted,
            is_multiplexed,
            multiplexer_signal: match multiplexer_name {
                Some(n) => Some(String::from_str(n)),
                None => None,
            },
            source: String::from_str(source),
        },
    )
}

/// Whether the scalars of a signal are binary64 values, as a DBC file
/// gives them.
pub open spec fn has_double_scalars(signal: DbcSignal) -> bool {
    signal.factor is Double && signal.offset is Double && signal.min is Double && signal.max
        is Double
}

/// Whether the scalars of all signals of a message are binary64 values.
pub open spec fn message_has_double_scalars(message: DbcMessage) -> bool {
    forall|k: int|
        0 <= k < message.signals@.len() ==> has_double_scalars(#[trigger] message.signals@[k])
}

/// Whether the scalars of all signals of all messages are binary64 values.
pub open spec fn have_double_scalars(records: Seq<DbcMessage>) -> bool {
    forall|i: int| 0 <= i < records.len() ==> message_has_double_scalars(#[trigger] records[i])
}

/// Whether one of the messages cannot be converted.
pub open spec fn any_refused(records: Seq<DbcMessage>) -> bool {
    exists|i: int| 0 <= i < records.len() && message_refused(#[trigger] records[i])
}

/// The definitions of the messages of a DBC file, in their order.
pub open spec fn converted_messages(records: Seq<DbcMessage>, source: Seq<char>) -> Seq<
    MessageDefinitionView,
> {
    records.map_values(|m: DbcMessage| converted_message(m, source))
}

/// Whether a result is what the conversion of the records of a DBC file
/// gives: the definitions of all messages, or `InvalidSignalDefinition`
/// where one of them is refused.
pub open spec fn converted_from(
    records: Seq<DbcMessage>,
    source: Seq<char>,
    r: Result<Vec<MessageDefinition>, DecoderError>,
) -> bool {
    &&& have_double_scalars(records)
    &&& r.is_err() == any_refused(records)
    &&& r matches Err(e) ==> e is InvalidSignalDefinition
    &&& r matches Ok(list) ==> message_definition_views(list@) == converted_messages(
        records,
        source,
    )
}

/// Whether two records describe a message alike: the same identifier, name,
/// size and sending node, and the same signals in the same order.
pub open spec fn same_message(a: DbcMessage, b: DbcMessage) -> bool {
    &&& a.id == b.id
    &&& a.name@ == b.name@
    &&& a.size == b.size
    &&& option_text(a.transmitter) == option_text(b.transmitter)
    &&& a.signals@ == b.signals@
}

/// Whether two lists of records describe the same messages in the same
/// order.
pub open spec fn same_records(a: Seq<DbcMessage>, b: Seq<DbcMessage>) -> bool {
    a.len() == b.len() && forall|i: int| 0 <= i < a.len() ==> same_message(#[trigger] a[i], b[i])
}

/// Records that describe the same messages are converted alike: the same
/// results are what their conversion gives.
pub proof fn lemma_same_records_convert_alike(
    a: Seq<DbcMessage>,
    b: Seq<DbcMessage>,
    source: Seq<char>,
    r: Result<Vec<MessageDefinition>, DecoderError>,
)
    requires
        same_records(a, b),
    ensures
        have_double_scalars(a) == have_double_scalars(b),
        any_refused(a) == any_refused(b),
        converted_messages(a, source) == converted_messages(b, source),
        converted_from(a, source, r) == converted_from(b, source, r),
{
    assert forall|i: int| 0 <= i < a.len() implies converted_message(#[trigger] a[i], source)
        == converted_message(b[i], source) && message_refused(a[i]) == message_refused(b[i])
        && message_has_double_scalars(a[i]) == message_has_double_scalars(b[i]) by {
        assert(same_message(a[i], b[i]));
    }
    assert(converted_messages(a, source) =~= converted_messages(b, source));
    if any_refused(a) {
        let i = choose|i: int| 0 <= i < a.len() && message_refused(#[trigger] a[i]);
        assert(message_refused(b[i]));
    }
    if any_refused(b) {
        let i = choose|i: int| 0 <= i < b.len() && message_refused(#[trigger] b[i]);
        assert(same_message(a[i], b[i]));
        assert(message_refused(a[i]));
    }
    if have_double_scalars(a) {
        assert forall|i: int| 0 <= i < b.len() implies message_has_double_scalars(
            #[trigger] b[i],
        ) by {
            assert(same_message(a[i], b[i]));
        }
    }
    if have_double_scalars(b) {
        assert forall|i: int| 0 <= i < a.len() implies message_has_double_scalars(
            #[trigger] a[i],
        ) by {
            assert(same_message(a[i], b[i]));
        }
    }
}

/// Converts the messages of a DBC file, in their order. One message that is
/// refused makes all of them fail.
pub fn convert_messages(messages: &Vec<DbcMessage>, source: &str) -> (r: Result<
    Vec<MessageDefinition>,
    DecoderError,
>)
    ensures
        r.is_err() == any_refused(messages@),
        r matches Err(e) ==> e is InvalidSignalDefinition,
        r matches Ok(list) ==> message_definition_views(list@) == converted_messages(
            messages@,
            source@,
        ),
{
    let mut list: Vec<MessageDefinition> = Vec::new();
    let mut i: usize = 0;
    while i < messages.len()
        invariant
            i <= messages@.len(),
            list@.len() == i,
            forall|j: int|
                0 <= j < i ==> !message_refused(#[trigger] messages@[j]) && list@[j]@
                    == converted_message(messages@[j], source@),
        decreases messages@.len() - i,
    {
        match convert_message(&messages[i], source) {
            Ok(m) => {
                list.push(m);
            },
            Err(e) => {
                return Err(e);
            },
        }
        i += 1;
    }
    assert(message_definition_views(list@) =~= converted_messages(messages@, source@));
    Ok(list)
}

} // verus!
