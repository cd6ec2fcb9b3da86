//! Message, signal and container definitions.

use std::collections::HashMap;
use vstd::prelude::*;
use crate::scalar::Scalar;
use crate::types::ContainerType;

verus! {

broadcast use vstd::std_specs::hash::group_hash_axioms;

/// The order in which a signal's bits lie in the payload.
#[derive(Debug, Clone, Copy, PartialEq, Eq, Structural)]
pub enum ByteOrder {
    /// Intel format: the start bit is the least significant one.
    LittleEndian,
    /// Motorola format: the start bit is the most significant one.
    BigEndian,
}

/// How the extracted bits are read as a number.
#[derive(Debug, Clone, Copy, PartialEq, Eq, Structural)]
pub enum ValueType {
    /// Two's complement.
    Signed,
    /// Plain binary.
    Unsigned,
}

/// When a multiplexed signal is present.
#[derive(Debug, Clone)]
pub struct MultiplexerInfo {
    /// Name of the signal whose value decides.
    pub multiplexer_signal: String,
    /// The values of that signal for which this signal is present.
    pub multiplexer_values: Vec<u64>,
}

/// The definition of one signal within a message.
#[derive(Debug, Clone)]
pub struct SignalDefinition {
    /// Name of the signal.
    pub name: String,
    /// Position of the first bit.
    pub start_bit: u16,
    /// Number of bits, 1 to 64.
    pub length: u16,
    /// Order of the bits.
    pub byte_order: ByteOrder,
    /// Signed or unsigned.
    pub value_type: ValueType,
    /// Scale factor from raw to physical value.
    pub factor: Scalar,
    /// Offset added after scaling.
    pub offset: Scalar,
    /// Smallest physical value.
    pub min: Scalar,
    /// Largest physical value.
    pub max: Scalar,
    /// Engineering unit.
    pub unit: Option<String>,
    /// Labels of raw values.
    pub value_table: Option<HashMap<i64, String>>,
    /// When the signal is present, for a multiplexed signal.
    pub multiplexer_info: Option<MultiplexerInfo>,
}

/// The definition of one message.
#[derive(Debug, Clone)]
pub struct MessageDefinition {
    /// CAN identifier.
    pub id: u32,
    /// Name of the message.
    pub name: String,
    /// Payload size in bytes.
    pub size: usize,
    /// Name of the sending node.
    pub sender: Option<String>,
    /// The signals, in the order of the definition file.
    pub signals: Vec<SignalDefinition>,
    /// Some signal of the message is gated by a multiplexer.
    pub is_multiplexed: bool,
    /// Name of the multiplexer signal.
    pub multiplexer_signal: Option<String>,
    /// Name of the file that defined the message.
    pub source: String,
}

/// One PDU of a container's layout.
#[derive(Debug, Clone)]
pub struct ContainedPduInfo {
    /// Identifier of the PDU.
    pub pdu_id: u32,
    /// Name of the PDU.
    pub name: String,
    /// Byte offset within the container.
    pub position: usize,
    /// Size in bytes.
    pub size: usize,
}

/// How the PDUs lie in a container frame.
#[derive(Debug, Clone)]
pub enum ContainerLayout {
    /// Fixed positions.
    Static { pdus: Vec<ContainedPduInfo> },
    /// A header of `header_size` bytes before each PDU; `pdus` gives names to
    /// the identifiers found in headers.
    Dynamic { header_size: usize, pdus: Vec<ContainedPduInfo> },
    /// Instances of one PDU of `pdu_size` bytes.
    Queued { pdu_id: u32, pdu_size: usize },
}

/// The definition of one container frame.
#[derive(Debug, Clone)]
pub struct ContainerDefinition {
    /// CAN identifier.
    pub id: u32,
    /// Name of the container.
    pub name: String,
    /// Kind of the container.
    pub container_type: ContainerType,
    /// Layout of the contained PDUs.
    pub layout: ContainerLayout,
    /// Name of the file that defined the container.
    pub source: String,
}

/// What a [`MultiplexerInfo`] is, as mathematical values.
pub struct MultiplexerInfoView {
    pub multiplexer_signal: Seq<char>,
    pub multiplexer_values: Seq<u64>,
}

impl View for MultiplexerInfo {
    type V = MultiplexerInfoView;

    open spec fn view(&self) -> MultiplexerInfoView {
        MultiplexerInfoView {
            multiplexer_signal: self.multiplexer_signal@,
            multiplexer_values: self.multiplexer_values@,
        }
    }
}

/// What a [`SignalDefinition`] is, as mathematical values.
pub struct SignalDefinitionView {
    pub name: Seq<char>,
    pub start_bit: u16,
    pub length: u16,
    pub byte_order: ByteOrder,
    pub value_type: ValueType,
    pub factor: Scalar,
    pub offset: Scalar,
    pub min: Scalar,
    pub max: Scalar,
    pub unit: Option<Seq<char>>,
    pub value_table: Option<Map<i64, Seq<char>>>,
    pub multiplexer_info: Option<MultiplexerInfoView>,
}

impl View for SignalDefinition {
    type V = SignalDefinitionView;

    open spec fn view(&self) -> SignalDefinitionView {
        SignalDefinitionView {
            name: self.name@,
            start_bit: self.start_bit,
            length: self.length,
            byte_order: self.byte_order,
            value_type: self.value_type,
            factor: self.factor,
            offset: self.offset,
            min: self.min,
            max: self.max,
            unit: match self.unit {
                Some(u) => Some(u@),
                None => None,
            },
            value_table: match self.value_table {
                Some(t) => Some(t@.map_values(|label: String| label@)),
                None => None,
            },
            multiplexer_info: match self.multiplexer_info {
                Some(m) => Some(m@),
                None => None,
            },
        }
    }
}

/// The views of a sequence of signal definitions.
pub open spec fn signal_definition_views(signals: Seq<SignalDefinition>) -> Seq<
    SignalDefinitionView,
> {
    signals.map_values(|s: SignalDefinition| s@)
}

/// What a [`MessageDefinition`] is, as mathematical values.
pub struct MessageDefinitionView {
    pub id: u32,
    pub name: Seq<char>,
    pub size: usize,
    pub sender: Option<Seq<char>>,
    pub signals: Seq<SignalDefinitionView>,
    pub is_multiplexed: bool,
    pub multiplexer_signal: Option<Seq<char>>,
    pub source: Seq<char>,
}

impl View for MessageDefinition {
    type V = MessageDefinitionView;

    open spec fn view(&self) -> MessageDefinitionView {
        MessageDefinitionView {
            id: self.id,
            name: self.name@,
            size: self.size,
            sender: match self.sender {
                Some(s) => Some(s@),
                None => None,
            },
            signals: signal_definition_views(self.signals@),
            is_multiplexed: self.is_multiplexed,
            multiplexer_signal: match self.multiplexer_signal {
                Some(s) => Some(s@),
                None => None,
            },
            source: self.source@,
        }
    }
}

/// The views of a sequence of message definitions.
pub open spec fn message_definition_views(messages: Seq<MessageDefinition>) -> Seq<
    MessageDefinitionView,
> {
    messages.map_values(|m: MessageDefinition| m@)
}

/// What a [`ContainedPduInfo`] is, as mathematical values.
pub struct ContainedPduInfoView {
    pub pdu_id: u32,
    pub name: Seq<char>,
    pub position: usize,
    pub size: usize,
}

impl View for ContainedPduInfo {
    type V = ContainedPduInfoView;

    open spec fn view(&self) -> ContainedPduInfoView {
        ContainedPduInfoView {
            pdu_id: self.pdu_id,
            name: self.name@,
            position: self.position,
            size: self.size,
        }
    }
}

/// The views of a sequence of layout entries.
pub open spec fn pdu_info_views(pdus: Seq<ContainedPduInfo>) -> Seq<ContainedPduInfoView> {
    pdus.map_values(|p: ContainedPduInfo| p@)
}

/// What a [`ContainerLayout`] is, as mathematical values.
pub enum ContainerLayoutView {
    Static { pdus: Seq<ContainedPduInfoView> },
    Dynamic { header_size: usize, pdus: Seq<ContainedPduInfoView> },
    Queued { pdu_id: u32, pdu_size: usize },
}

impl View for ContainerLayout {
    type V = ContainerLayoutView;

    open spec fn view(&self) -> ContainerLayoutView {
        match *self {
            ContainerLayout::Static { pdus } => ContainerLayoutView::Static {
                pdus: pdu_info_views(pdus@),
            },
            ContainerLayout::Dynamic { header_size, pdus } => ContainerLayoutView::Dynamic {
                header_size,
                pdus: pdu_info_views(pdus@),
            },
            ContainerLayout::Queued { pdu_id, pdu_size } => ContainerLayoutView::Queued {
                pdu_id,
                pdu_size,
            },
        }
    }
}

/// What a [`ContainerDefinition`] is, as mathematical values.
pub struct ContainerDefinitionView {
    pub id: u32,
    pub name: Seq<char>,
    pub container_type: ContainerType,
    pub layout: ContainerLayoutView,
    pub source: Seq<char>,
}

impl View for ContainerDefinition {
    type V = ContainerDefinitionView;

    open spec fn view(&self) -> ContainerDefinitionView {
        ContainerDefinitionView {
            id: self.id,
            name: self.name@,
            container_type: self.container_type,
            layout: self.layout@,
            source: self.source@,
        }
    }
}

/// The views of a sequence of container definitions.
pub open spec fn container_definition_views(containers: Seq<ContainerDefinition>) -> Seq<
    ContainerDefinitionView,
> {
    containers.map_values(|c: ContainerDefinition| c@)
}

/// Counts of what a database holds.
#[derive(Debug, Clone, Copy, PartialEq, Eq, Structural)]
pub struct DatabaseStats {
    /// Number of message definitions.
    pub num_messages: usize,
    /// Number of signal definitions, over all messages.
    pub num_signals: usize,
    /// Number of container definitions.
    pub num_containers: usize,
}

/// The positions, in rising order, of the messages with a given identifier.
pub open spec fn positions(messages: Seq<MessageDefinition>, id: u32) -> Seq<usize>
    decreases messages.len(),
{
    if messages.len() == 0 {
        Seq::empty()
    } else {
        let before = positions(messages.drop_last(), id);
        if messages.last().id == id {
            before.push((messages.len() - 1) as usize)
        } else {
            before
        }
    }
}

/// The position of the last message of a given name.
pub open spec fn last_named(messages: Seq<MessageDefinition>, name: Seq<char>) -> Option<int>
    decreases messages.len(),
{
    if messages.len() == 0 {
        None
    } else if messages.last().name@ == name {
        Some(messages.len() - 1)
    } else {
        last_named(messages.drop_last(), name)
    }
}

/// The number of signals of all messages together.
pub open spec fn total_signals(messages: Seq<MessageDefinition>) -> nat
    decreases messages.len(),
{
    if messages.len() == 0 {
        0
    } else {
        total_signals(messages.drop_last()) + messages.last().signals@.len()
    }
}

/// `positions` lists exactly the indices of the messages with the given
/// identifier, each once and in rising order; so its first entry is the
/// message that was added first.
pub proof fn lemma_positions(messages: Seq<MessageDefinition>, id: u32)
    requires
        messages.len() <= usize::MAX,
    ensures
        forall|k: int|
            0 <= k < positions(messages, id).len() ==> (#[trigger] positions(messages, id)[k])
                < messages.len() && messages[positions(messages, id)[k] as int].id == id,
        forall|k: int, l: int|
            0 <= k < l < positions(messages, id).len() ==> positions(messages, id)[k]
                < positions(messages, id)[l],
        forall|i: int|
            0 <= i < messages.len() && (#[trigger] messages[i]).id == id ==> positions(
                messages,
                id,
            ).contains(i as usize),
    decreases messages.len(),
{
    if messages.len() > 0 {
        let shorter = messages.drop_last();
        lemma_positions(shorter, id);
        let before = positions(shorter, id);
        let all = positions(messages, id);
        assert forall|i: int| 0 <= i < messages.len() && (#[trigger] messages[i]).id == id implies all.contains(
            i as usize,
        ) by {
            if i < shorter.len() {
                assert(shorter[i].id == id);
                let k = choose|k: int| 0 <= k < before.len() && before[k] == i as usize;
                assert(all[k] == i as usize);
            } else {
                assert(all[all.len() - 1] == i as usize);
            }
        }
    }
}

/// The messages with a given identifier, in the order in which they were
/// added.
pub open spec fn messages_with_id(messages: Seq<MessageDefinition>, id: u32) -> Seq<
    MessageDefinition,
> {
    positions(messages, id).map_values(|p: usize| messages[p as int])
}

/// The places of the signals of a name among the first `upto` signals of a
/// message: the message's identifier with the index of each such signal.
pub open spec fn message_locations(message: MessageDefinition, name: Seq<char>, upto: int) -> Seq<
    (u32, int),
>
    decreases upto,
{
    if upto <= 0 {
        Seq::empty()
    } else if message.signals@[upto - 1].name@ == name {
        message_locations(message, name, upto - 1).push((message.id, upto - 1))
    } else {
        message_locations(message, name, upto - 1)
    }
}

/// The places of the signals of a name in the first `upto` messages, in the
/// order in which messages and signals were added.
pub open spec fn signal_locations(messages: Seq<MessageDefinition>, name: Seq<char>, upto: int) -> Seq<
    (u32, int),
>
    decreases upto,
{
    if upto <= 0 {
        Seq::empty()
    } else {
        signal_locations(messages, name, upto - 1) + message_locations(
            messages[upto - 1],
            name,
            messages[upto - 1].signals@.len() as int,
        )
    }
}

/// The signal at a place: the signal with that index in the first message
/// added with that identifier, where it has one.
pub open spec fn signal_at(messages: Seq<MessageDefinition>, place: (u32, int)) -> Option<
    (u32, SignalDefinition),
> {
    let found = positions(messages, place.0);
    if found.len() > 0 && 0 <= place.1 < messages[found[0] as int].signals@.len() {
        Some((place.0, messages[found[0] as int].signals@[place.1]))
    } else {
        None
    }
}

/// The signals at a list of places, in their order.
pub open spec fn signals_at(messages: Seq<MessageDefinition>, places: Seq<(u32, int)>) -> Seq<
    (u32, SignalDefinition),
>
    decreases places.len(),
{
    if places.len() == 0 {
        Seq::empty()
    } else {
        match signal_at(messages, places.last()) {
            Some(s) => signals_at(messages, places.drop_last()).push(s),
            None => signals_at(messages, places.drop_last()),
        }
    }
}

/// Whether a sequence of identifiers rises strictly.
pub open spec fn strictly_rising(ids: Seq<u32>) -> bool {
    forall|i: int, j: int| 0 <= i < j < ids.len() ==> ids[i] < ids[j]
}

/// Puts an identifier into a rising list, unless it is there.
fn insert_rising(ids: &mut Vec<u32>, id: u32)
    requires
        strictly_rising(old(ids)@),
    ensures
        strictly_rising(final(ids)@),
        forall|x: u32| final(ids)@.contains(x) <==> (old(ids)@.contains(x) || x == id),
{
    let mut at: usize = 0;
    while at < ids.len() && ids[at] < id
        invariant
            at <= ids@.len(),
            ids@ == old(ids)@,
            strictly_rising(ids@),
            forall|j: int| 0 <= j < at ==> ids@[j] < id,
        decreases ids@.len() - at,
    {
        at += 1;
    }
    if at < ids.len() && ids[at] == id {
        assert(ids@.contains(id));
        return ;
    }
    let ghost before = ids@;
    ids.insert(at, id);
    proof {
        assert(ids@[at as int] == id);
        assert forall|x: u32| ids@.contains(x) <==> (before.contains(x) || x == id) by {
            if before.contains(x) {
                let k = choose|k: int| 0 <= k < before.len() && before[k] == x;
                if k < at {
                    assert(ids@[k] == x);
                } else {
                    assert(ids@[k + 1] == x);
                }
            }
            if ids@.contains(x) && x != id {
                let k = choose|k: int| 0 <= k < ids@.len() && ids@[k] == x;
                if k < at {
                    assert(before[k] == x);
                } else {
                    assert(before[k - 1] == x);
                }
            }
        }
    }
}

/// The database of definitions that frames are decoded against.
///
/// Messages are kept in the order in which they were added. Several may
/// share one CAN identifier: a lookup by identifier finds the one added
/// first, a lookup by name the one added last. Containers are kept one per
/// identifier, a later one replacing an earlier one.
pub struct SignalDatabase {
    messages: Vec<MessageDefinition>,
    by_id: HashMap<u32, Vec<usize>>,
    containers: HashMap<u32, ContainerDefinition>,
}

impl Default for SignalDatabase {
    fn default() -> (r: Self)
        ensures
            r.wf(),
            r.messages() == Seq::<MessageDefinition>::empty(),
            r.containers() == Map::<u32, ContainerDefinition>::empty(),
    {
        SignalDatabase::new()
    }
}

impl SignalDatabase {
    /// The messages, in the order in which they were added.
    pub closed spec fn messages(&self) -> Seq<MessageDefinition> {
        self.messages@
    }

    /// The containers by identifier.
    pub closed spec fn containers(&self) -> Map<u32, ContainerDefinition> {
        self.containers@
    }

    /// The index by identifier agrees with the list of messages.
    pub closed spec fn wf(&self) -> bool {
        forall|id: u32|
            {
                &&& self.by_id@.contains_key(id) <==> (#[trigger] positions(self.messages@, id)).len()
                    > 0
                &&& self.by_id@.contains_key(id) ==> self.by_id@[id]@ == positions(
                    self.messages@,
                    id,
                )
            }
    }

    /// The message that a lookup by identifier finds: the first one added
    /// with that identifier.
    pub open spec fn message(&self, id: u32) -> Option<MessageDefinition> {
        let found = positions(self.messages(), id);
        if found.len() > 0 {
            Some(self.messages()[found[0] as int])
        } else {
            None
        }
    }

    /// The message that a lookup by name finds: the last one added with that
    /// name.
    pub open spec fn message_by_name(&self, name: Seq<char>) -> Option<MessageDefinition> {
        match last_named(self.messages(), name) {
            Some(i) => Some(self.messages()[i]),
            None => None,
        }
    }

    /// The container that a lookup by identifier finds.
    pub open spec fn container(&self, id: u32) -> Option<ContainerDefinition> {
        if self.containers().contains_key(id) {
            Some(self.containers()[id])
        } else {
            None
        }
    }

    /// An empty database.
    pub fn new() -> (r: Self)
        ensures
            r.wf(),
            r.messages() == Seq::<MessageDefinition>::empty(),
            r.containers() == Map::<u32, ContainerDefinition>::empty(),
    {
        SignalDatabase { messages: Vec::new(), by_id: HashMap::new(), containers: HashMap::new() }
    }

    /// Adds a message definition after those already held.
    pub fn add_message(&mut self, message: MessageDefinition)
        requires
            old(self).wf(),
        ensures
            final(self).wf(),
            final(self).messages() == old(self).messages().push(message),
            final(self).containers() == old(self).containers(),
    {
        let can_id = message.id;
        let index = self.messages.len();
        let ghost before = self.messages@;
        let ghost after = before.push(message);
        let mut list: Vec<usize> = match self.by_id.remove(&can_id) {
            Some(l) => l,
            None => Vec::new(),
        };
        assert(list@ == positions(before, can_id));
        list.push(index);
        self.by_id.insert(can_id, list);
        self.messages.push(message);
        proof {
            assert(after.drop_last() =~= before);
            assert forall|id: u32|
                {
                    &&& self.by_id@.contains_key(id) <==> (#[trigger] positions(self.messages@, id)).len()
                        > 0
                    &&& self.by_id@.contains_key(id) ==> self.by_id@[id]@ == positions(
                        self.messages@,
                        id,
                    )
                } by {
                assert(positions(after, id) == if id == can_id {
                    positions(before, id).push(index)
                } else {
                    positions(before, id)
                });
                assert(old(self).by_id@.contains_key(id) <==> positions(before, id).len() > 0);
            }
        }
    }

    /// Adds a container definition; it replaces one with the same identifier.
    pub fn add_container(&mut self, container: ContainerDefinition)
        requires
            old(self).wf(),
        ensures
            final(self).wf(),
            final(self).messages() == old(self).messages(),
            final(self).containers() == old(self).containers().insert(container.id, container),
    {
        self.containers.insert(container.id, container);
    }

    /// All messages with an identifier, in the order in which they were
    /// added; nothing where there is none.
    pub fn get_messages(&self, can_id: u32) -> (r: Option<Vec<&MessageDefinition>>)
        requires
            self.wf(),
        ensures
            r.is_some() <==> messages_with_id(self.messages(), can_id).len() > 0,
            r matches Some(list) ==> list@.len() == messages_with_id(self.messages(), can_id).len()
                && forall|k: int|
                0 <= k < list@.len() ==> *(#[trigger] list@[k]) == messages_with_id(
                    self.messages(),
                    can_id,
                )[k],
    {
        proof {
            assert(self.messages.len() <= usize::MAX);
            lemma_positions(self.messages@, can_id);
        }
        match self.by_id.get(&can_id) {
            Some(found) => {
                let mut list: Vec<&MessageDefinition> = Vec::new();
                let mut k: usize = 0;
                while k < found.len()
                    invariant
                        k <= found@.len(),
                        found@ == positions(self.messages@, can_id),
                        forall|j: int|
                            0 <= j < found@.len() ==> (#[trigger] found@[j]) < self.messages@.len(),
                        list@.len() == k,
                        forall|j: int|
                            0 <= j < k ==> *(#[trigger] list@[j]) == self.messages@[found@[j] as int],
                    decreases found@.len() - k,
                {
                    list.push(&self.messages[found[k]]);
                    k += 1;
                }
                Some(list)
            },
            None => None,
        }
    }

    /// The first message added with an identifier.
    pub fn get_message(&self, can_id: u32) -> (r: Option<&MessageDefinition>)
        requires
            self.wf(),
        ensures
            r.is_some() == self.message(can_id).is_some(),
            r matches Some(m) ==> Some(*m) == self.message(can_id),
    {
        proof {
            assert(self.messages.len() <= usize::MAX);
            lemma_positions(self.messages@, can_id);
        }
        match self.by_id.get(&can_id) {
            Some(found) => Some(&self.messages[found[0]]),
            None => None,
        }
    }

    /// The container with an identifier.
    pub fn get_container(&self, container_id: u32) -> (r: Option<&ContainerDefinition>)
        requires
            self.wf(),
        ensures
            r.is_some() == self.container(container_id).is_some(),
            r matches Some(c) ==> Some(*c) == self.container(container_id),
    {
        self.containers.get(&container_id)
    }

    /// The last message added with a name.
    pub fn get_message_by_name(&self, message_name: &str) -> (r: Option<&MessageDefinition>)
        requires
            self.wf(),
        ensures
            r.is_some() == self.message_by_name(message_name@).is_some(),
            r matches Some(m) ==> Some(*m) == self.message_by_name(message_name@),
    {
        let mut i: usize = self.messages.len();
        assert(self.messages@.take(i as int) =~= self.messages@);
        while i > 0
            invariant
                i <= self.messages@.len(),
                last_named(self.messages@, message_name@) == last_named(
                    self.messages@.take(i as int),
                    message_name@,
                ),
            decreases i,
        {
            proof {
                let taken = self.messages@.take(i as int);
                assert(taken.drop_last() =~= self.messages@.take(i - 1));
                assert(taken.last() == self.messages@[i - 1]);
            }
            i -= 1;
            if crate::text::same_text(self.messages[i].name.as_str(), message_name) {
                return Some(&self.messages[i]);
            }
        }
        None
    }

    /// All signals of a name, each with the identifier of its message, in
    /// the order in which they were added. A signal is looked up by its
    /// index in the first message added with the identifier, so that of
    /// several messages with one identifier only the first one's signals are
    /// found.
    pub fn find_signal(&self, signal_name: &str) -> (r: Vec<(u32, &SignalDefinition)>)
        requires
            self.wf(),
        ensures
            r@.map_values(|p: (u32, &SignalDefinition)| (p.0, *p.1)) == signals_at(
                self.messages(),
                signal_locations(self.messages(), signal_name@, self.messages().len() as int),
            ),
    {
        let mut found: Vec<(u32, &SignalDefinition)> = Vec::new();
        let mut i: usize = 0;
        assert(found@.map_values(|p: (u32, &SignalDefinition)| (p.0, *p.1)) =~= Seq::<
            (u32, SignalDefinition),
        >::empty());
        while i < self.messages.len()
            invariant
                i <= self.messages@.len(),
                self.wf(),
                found@.map_values(|p: (u32, &SignalDefinition)| (p.0, *p.1)) == signals_at(
                    self.messages@,
                    signal_locations(self.messages@, signal_name@, i as int),
                ),
            decreases self.messages@.len() - i,
        {
            let message = &self.messages[i];
            let can_id = message.id;
            let ghost earlier = signal_locations(self.messages@, signal_name@, i as int);
            let mut k: usize = 0;
            assert(earlier + message_locations(*message, signal_name@, 0) =~= earlier);
            while k < message.signals.len()
                invariant
                    k <= message.signals@.len(),
                    i < self.messages@.len(),
                    *message == self.messages@[i as int],
                    can_id == message.id,
                    self.wf(),
                    found@.map_values(|p: (u32, &SignalDefinition)| (p.0, *p.1)) == signals_at(
                        self.messages@,
                        earlier + message_locations(*message, signal_name@, k as int),
                    ),
                decreases message.signals@.len() - k,
            {
                let ghost so_far = earlier + message_locations(*message, signal_name@, k as int);
                if crate::text::same_text(message.signals[k].name.as_str(), signal_name) {
                    proof {
                        assert(earlier + message_locations(*message, signal_name@, k + 1)
                            =~= so_far.push((can_id, k as int)));
                        assert(so_far.push((can_id, k as int)).drop_last() =~= so_far);
                    }
                    if let Some(first) = self.get_message(can_id) {
                        if k < first.signals.len() {
                            let ghost before = found@;
                            found.push((can_id, &first.signals[k]));
                            assert(found@.map_values(|p: (u32, &SignalDefinition)| (p.0, *p.1))
                                =~= before.map_values(
                                |p: (u32, &SignalDefinition)| (p.0, *p.1),
                            ).push((can_id, first.signals@[k as int])));
                        }
                    }
                }
                k += 1;
            }
            i += 1;
        }
        found
    }

    /// The identifiers that have a message, each once, in rising order.
    pub fn get_all_can_ids(&self) -> (r: Vec<u32>)
        requires
            self.wf(),
        ensures
            strictly_rising(r@),
            forall|id: u32|
                r@.contains(id) <==> exists|i: int|
                    0 <= i < self.messages().len() && (#[trigger] self.messages()[i]).id == id,
    {
        let mut ids: Vec<u32> = Vec::new();
        let mut i: usize = 0;
        while i < self.messages.len()
            invariant
                i <= self.messages@.len(),
                strictly_rising(ids@),
                forall|id: u32|
                    ids@.contains(id) <==> exists|j: int|
                        0 <= j < i && (#[trigger] self.messages@[j]).id == id,
            decreases self.messages@.len() - i,
        {
            let ghost before = ids@;
            insert_rising(&mut ids, self.messages[i].id);
            proof {
                assert forall|id: u32|
                    ids@.contains(id) <==> exists|j: int|
                        0 <= j < i + 1 && (#[trigger] self.messages@[j]).id == id by {
                    if ids@.contains(id) {
                        if before.contains(id) {
                            let j = choose|j: int|
                                0 <= j < i && (#[trigger] self.messages@[j]).id == id;
                            assert(0 <= j < i + 1 && self.messages@[j].id == id);
                        } else {
                            assert(self.messages@[i as int].id == id);
                        }
                    }
                    if exists|j: int| 0 <= j < i + 1 && (#[trigger] self.messages@[j]).id == id {
                        let j = choose|j: int|
                            0 <= j < i + 1 && (#[trigger] self.messages@[j]).id == id;
                        if j < i {
                            assert(before.contains(id));
                        }
                    }
                }
            }
            i += 1;
        }
        ids
    }

    /// The counts of messages, signals and containers. A count of signals
    /// that exceeds the machine's word is given as the largest word.
    pub fn stats(&self) -> (r: DatabaseStats)
        requires
            self.wf(),
        ensures
            r.num_messages == self.messages().len(),
            r.num_signals == if total_signals(self.messages()) <= usize::MAX {
                total_signals(self.messages())
            } else {
                usize::MAX as nat
            },
            r.num_containers == self.containers().len(),
    {
        let mut num_signals: usize = 0;
        let mut i: usize = 0;
        while i < self.messages.len()
            invariant
                i <= self.messages@.len(),
                num_signals == if total_signals(self.messages@.take(i as int)) <= usize::MAX {
                    total_signals(self.messages@.take(i as int))
                } else {
                    usize::MAX as nat
                },
            decreases self.messages@.len() - i,
        {
            proof {
                let taken = self.messages@.take(i + 1);
                assert(taken.drop_last() =~= self.messages@.take(i as int));
                assert(taken.last() == self.messages@[i as int]);
            }
            let n = self.messages[i].signals.len();
            num_signals = if n > usize::MAX - num_signals {
                usize::MAX
            } else {
                num_signals + n
            };
            i += 1;
        }
        assert(self.messages@.take(i as int) =~= self.messages@);
        DatabaseStats {
            num_messages: self.messages.len(),
            num_signals,
            num_containers: self.containers.len(),
        }
    }
}

} // verus!
