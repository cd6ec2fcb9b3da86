//! The settings of a decoder.

use vstd::prelude::*;
use vstd::string::StringExecFns;

verus! {

/// A pair of addresses of the transport protocol.
#[derive(Debug, Clone, PartialEq, Eq, Hash)]
pub struct CanTpPair {
    /// Address of the requests.
    pub source: u32,
    /// Address of the responses.
    pub target: u32,
    /// A name for the pair.
    pub name: Option<String>,
}

impl CanTpPair {
    /// A pair without a name.
    pub fn new(source: u32, target: u32) -> (r: Self)
        ensures
            r.source == source,
            r.target == target,
            r.name.is_none(),
    {
        CanTpPair { source, target, name: None }
    }

    /// A pair with a name.
    pub fn with_name(source: u32, target: u32, name: &str) -> (r: Self)
        ensures
            r.source == source,
            r.target == target,
            r.name.is_some(),
            r.name.unwrap()@ == name@,
    {
        CanTpPair { source, target, name: Some(String::from_str(name)) }
    }
}

/// The settings of a decoder.
#[derive(Debug, Clone)]
pub struct DecoderConfig {
    /// Whether signals are decoded.
    pub decode_signals: bool,
    /// Address pairs of the transport protocol to reassemble.
    pub cantp_pairs: Vec<CanTpPair>,
    /// Identifiers of containers to unpack.
    pub container_ids: Vec<u32>,
    /// The channels to decode; all where none are given.
    pub channel_filter: Option<Vec<u8>>,
    /// The identifiers to decode; all where none are given.
    pub message_filter: Option<Vec<u32>>,
    /// Whether raw frames are handed out besides decoded messages.
    pub emit_raw_frames: bool,
    /// Whether transport-protocol traffic is looked for.
    pub cantp_auto_detect: bool,
    /// Timeout of the transport protocol in milliseconds.
    pub cantp_timeout_ms: u64,
    /// Number of wait frames of the flow control that are borne.
    pub cantp_max_wait_frames: usize,
}

/// The setting that holds where a settings file does not say otherwise.
pub fn default_true() -> (r: bool)
    ensures
        r,
{
    true
}

/// The timeout of the transport protocol where none is given.
pub fn default_cantp_timeout() -> (r: u64)
    ensures
        r == 1000,
{
    1000
}

/// The number of wait frames that are borne where none is given.
pub fn default_max_wait_frames() -> (r: usize)
    ensures
        r == 10,
{
    10
}

impl Default for DecoderConfig {
    fn default() -> (r: Self)
        ensures
            r.is_initial(),
    {
        DecoderConfig {
            decode_signals: false,
            cantp_pairs: Vec::new(),
            container_ids: Vec::new(),
            channel_filter: None,
            message_filter: None,
            emit_raw_frames: false,
            cantp_auto_detect: false,
            cantp_timeout_ms: 0,
            cantp_max_wait_frames: 0,
        }
    }
}

impl DecoderConfig {
    /// Whether a settings value is the one that `new` gives: nothing
    /// switched on, no pairs, no containers, no filters.
    pub open spec fn is_initial(self) -> bool {
        &&& !self.decode_signals
        &&& self.cantp_pairs@.len() == 0
        &&& self.container_ids@.len() == 0
        &&& self.channel_filter.is_none()
        &&& self.message_filter.is_none()
        &&& !self.emit_raw_frames
        &&& !self.cantp_auto_detect
        &&& self.cantp_timeout_ms == 0
        &&& self.cantp_max_wait_frames == 0
    }

    /// Whether the filter of channels lets a channel pass.
    pub open spec fn passes_channel(self, channel: u8) -> bool {
        match self.channel_filter {
            Some(channels) => channels@.contains(channel),
            None => true,
        }
    }

    /// Whether the filter of identifiers lets an identifier pass.
    pub open spec fn passes_message(self, can_id: u32) -> bool {
        match self.message_filter {
            Some(messages) => messages@.contains(can_id),
            None => true,
        }
    }

    /// Settings with nothing switched on and no filter.
    pub fn new() -> (r: Self)
        ensures
            r.is_initial(),
    {
        DecoderConfig {
            decode_signals: false,
            cantp_pairs: Vec::new(),
            container_ids: Vec::new(),
            channel_filter: None,
            message_filter: None,
            emit_raw_frames: false,
            cantp_auto_detect: false,
            cantp_timeout_ms: 0,
            cantp_max_wait_frames: 0,
        }
    }

    /// Switches the decoding of signals on or off.
    pub fn with_signal_decoding(self, enabled: bool) -> (r: Self)
        ensures
            r == (DecoderConfig { decode_signals: enabled, ..self }),
    {
        let mut config = self;
        config.decode_signals = enabled;
        config
    }

    /// Adds an address pair of the transport protocol.
    pub fn add_cantp_pair(self, source: u32, target: u32) -> (r: Self)
        ensures
            r.cantp_pairs@.len() == self.cantp_pairs@.len() + 1,
            r.cantp_pairs@.drop_last() == self.cantp_pairs@,
            r.cantp_pairs@.last().source == source,
            r.cantp_pairs@.last().target == target,
            r.cantp_pairs@.last().name.is_none(),
            r == (DecoderConfig { cantp_pairs: r.cantp_pairs, ..self }),
    {
        let mut config = self;
        config.cantp_pairs.push(CanTpPair::new(source, target));
        assert(config.cantp_pairs@.drop_last() =~= self.cantp_pairs@);
        config
    }

    /// Adds an address pair of the transport protocol with a name.
    pub fn add_named_cantp_pair(self, source: u32, target: u32, name: &str) -> (r: Self)
        ensures
            r.cantp_pairs@.len() == self.cantp_pairs@.len() + 1,
            r.cantp_pairs@.drop_last() == self.cantp_pairs@,
            r.cantp_pairs@.last().source == source,
            r.cantp_pairs@.last().target == target,
            r.cantp_pairs@.last().name.is_some(),
            r.cantp_pairs@.last().name.unwrap()@ == name@,
            r == (DecoderConfig { cantp_pairs: r.cantp_pairs, ..self }),
    {
        let mut config = self;
        config.cantp_pairs.push(CanTpPair::with_name(source, target, name));
        assert(config.cantp_pairs@.drop_last() =~= self.cantp_pairs@);
        config
    }

    /// Adds the identifier of a container to unpack.
    pub fn add_container_id(self, container_id: u32) -> (r: Self)
        ensures
            r.container_ids@ == self.container_ids@.push(container_id),
            r == (DecoderConfig { container_ids: r.container_ids, ..self }),
    {
        let mut config = self;
        config.container_ids.push(container_id);
        config
    }

    /// Sets the filter of channels.
    pub fn with_channel_filter(self, channels: Vec<u8>) -> (r: Self)
        ensures
            r == (DecoderConfig { channel_filter: Some(channels), ..self }),
    {
        let mut config = self;
        config.channel_filter = Some(channels);
        config
    }

    /// Sets the filter of identifiers.
    pub fn with_message_filter(self, messages: Vec<u32>) -> (r: Self)
        ensures
            r == (DecoderConfig { message_filter: Some(messages), ..self }),
    {
        let mut config = self;
        config.message_filter = Some(messages);
        config
    }

    /// Switches the handing out of raw frames on or off.
    pub fn with_raw_frames(self, enabled: bool) -> (r: Self)
        ensures
            r == (DecoderConfig { emit_raw_frames: enabled, ..self }),
    {
        let mut config = self;
        config.emit_raw_frames = enabled;
        config
    }

    /// Switches the search for transport-protocol traffic on or off.
    pub fn with_cantp_auto_detect(self, enabled: bool) -> (r: Self)
        ensures
            r == (DecoderConfig { cantp_auto_detect: enabled, ..self }),
    {
        let mut config = self;
        config.cantp_auto_detect = enabled;
        config
    }

    /// Tests whether the filter of channels lets a channel pass.
    pub fn should_process_channel(&self, channel: u8) -> (r: bool)
        ensures
            r == self.passes_channel(channel),
    {
        match &self.channel_filter {
            Some(channels) => {
                let mut i: usize = 0;
                while i < channels.len()
                    invariant
                        i <= channels@.len(),
                        self.channel_filter == Some(*channels),
                        forall|j: int| 0 <= j < i ==> channels@[j] != channel,
                    decreases channels@.len() - i,
                {
                    if channels[i] == channel {
                        return true;
                    }
                    i += 1;
                }
                false
            },
            None => true,
        }
    }

    /// Tests whether the filter of identifiers lets an identifier pass.
    pub fn should_process_message(&self, can_id: u32) -> (r: bool)
        ensures
            r == self.passes_message(can_id),
    {
        match &self.message_filter {
            Some(messages) => {
                let mut i: usize = 0;
                while i < messages.len()
                    invariant
                        i <= messages@.len(),
                        self.message_filter == Some(*messages),
                        forall|j: int| 0 <= j < i ==> messages@[j] != can_id,
                    decreases messages@.len() - i,
                {
                    if messages[i] == can_id {
                        return true;
                    }
                    i += 1;
                }
                false
            },
            None => true,
        }
    }

    /// Tests whether both filters let a frame pass.
    pub fn should_process_frame(&self, channel: u8, can_id: u32) -> (r: bool)
        ensures
            r == (self.passes_channel(channel) && self.passes_message(can_id)),
    {
        self.should_process_channel(channel) && self.should_process_message(can_id)
    }
}

} // verus!
