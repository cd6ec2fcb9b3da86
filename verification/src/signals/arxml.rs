//! Reading of AUTOSAR system descriptions.
//!
//! A description is held as the list of its elements in document order, each
//! with its depth in the tree. Messages are gathered from the signal PDUs
//! and multiplexed PDUs of the description, containers from its container
//! PDUs; the CAN identifier of each is found through the frame that carries
//! the PDU and the triggering of that frame. A PDU without identifier is
//! left out.

use vstd::prelude::*;
use vstd::string::StringExecFns;
use crate::scalar::Scalar;
use crate::signals::database::{
    container_definition_views, message_definition_views, pdu_info_views,
    signal_definition_views, ByteOrder, ContainedPduInfo, ContainedPduInfoView,
    ContainerDefinition, ContainerDefinitionView, ContainerLayout, ContainerLayoutView,
    MessageDefinition, MessageDefinitionView, MultiplexerInfo, MultiplexerInfoView,
    SignalDefinition, SignalDefinitionView, ValueType,
};
use crate::text::{
    bounded_number, holds_text, last_segment, last_segment_of, parse_number, same_text,
    text_contains, trimmed, trimmed_text,
};
use crate::signals::autosar::{arxml_accepted, arxml_elements, is_arxml_refusal};
use crate::types::{option_text, ContainerType, DecoderError};

verus! {

/// One element of a description.
#[derive(Debug, Clone, PartialEq)]
pub struct ArxmlElement {
    /// Depth in the tree; the root has depth 0.
    pub depth: usize,
    /// The element's tag, such as `I-SIGNAL-I-PDU`.
    pub tag: String,
    /// The element's short name, where it has one.
    pub name: Option<String>,
    /// The element's path, made of the short names down to it.
    pub path: Option<String>,
    /// The element's character content.
    pub text: Option<String>,
}

/// A description: its elements in document order, each parent before its
/// children.
#[derive(Debug, Clone, PartialEq)]
pub struct ArxmlDocument {
    pub elements: Vec<ArxmlElement>,
}

/// Whether elements are listed as a walk through a tree lists them, each
/// parent before its children: the first element is the root at depth 0,
/// and every further element lies below the root and at most one level
/// deeper than the element before it.
pub open spec fn in_document_order(els: Seq<ArxmlElement>) -> bool {
    &&& els.len() >= 1
    &&& els[0].depth == 0
    &&& forall|i: int|
        1 <= i < els.len() ==> 1 <= (#[trigger] els[i]).depth <= els[i - 1].depth + 1
}

/// The first sub-element with a tag among the elements from `from` on that
/// lie below an element of depth `depth`.
pub open spec fn find_child(els: Seq<ArxmlElement>, depth: int, tag: Seq<char>, from: int) -> Option<
    int,
>
    decreases els.len() - from,
{
    if from < 0 || from >= els.len() || els[from].depth <= depth {
        None
    } else if els[from].depth == depth + 1 && els[from].tag@ == tag {
        Some(from)
    } else {
        find_child(els, depth, tag, from + 1)
    }
}

/// The first sub-element of element `at` with a tag.
pub open spec fn sub_element(els: Seq<ArxmlElement>, at: int, tag: Seq<char>) -> Option<int> {
    find_child(els, els[at].depth as int, tag, at + 1)
}

/// The sub-elements with a tag among the elements from `from` on that lie
/// below an element of depth `depth`, in document order.
pub open spec fn collect_children(
    els: Seq<ArxmlElement>,
    depth: int,
    tag: Seq<char>,
    from: int,
) -> Seq<int>
    decreases els.len() - from,
{
    if from < 0 || from >= els.len() || els[from].depth <= depth {
        Seq::empty()
    } else if els[from].depth == depth + 1 && els[from].tag@ == tag {
        seq![from] + collect_children(els, depth, tag, from + 1)
    } else {
        collect_children(els, depth, tag, from + 1)
    }
}

/// The sub-elements of element `at` with a tag, in document order.
pub open spec fn sub_elements(els: Seq<ArxmlElement>, at: int, tag: Seq<char>) -> Seq<int> {
    collect_children(els, els[at].depth as int, tag, at + 1)
}

/// The text of the first sub-element of element `at` with a tag.
pub open spec fn sub_element_text(els: Seq<ArxmlElement>, at: int, tag: Seq<char>) -> Option<
    Seq<char>,
> {
    match sub_element(els, at, tag) {
        Some(j) => option_text(els[j].text),
        None => None,
    }
}

/// The first element from `from` on with a short name.
pub open spec fn find_named(els: Seq<ArxmlElement>, name: Seq<char>, from: int) -> Option<int>
    decreases els.len() - from,
{
    if from < 0 || from >= els.len() {
        None
    } else if option_text(els[from].name) == Some(name) {
        Some(from)
    } else {
        find_named(els, name, from + 1)
    }
}

/// The first element from `from` on with a path.
pub open spec fn find_at_path(els: Seq<ArxmlElement>, path: Seq<char>, from: int) -> Option<int>
    decreases els.len() - from,
{
    if from < 0 || from >= els.len() {
        None
    } else if option_text(els[from].path) == Some(path) {
        Some(from)
    } else {
        find_at_path(els, path, from + 1)
    }
}

impl ArxmlDocument {
    /// Finds the first sub-element of an element with a tag.
    pub fn find_sub_element(&self, at: usize, tag: &str) -> (r: Option<usize>)
        requires
            at < self.elements.len(),
        ensures
            r.is_some() == sub_element(self.elements@, at as int, tag@).is_some(),
            r matches Some(j) ==> Some(j as int) == sub_element(self.elements@, at as int, tag@)
                && at < j < self.elements@.len(),
    {
        let depth = self.elements[at].depth;
        let mut j: usize = at + 1;
        while j < self.elements.len() && self.elements[j].depth > depth
            invariant
                at < j <= self.elements@.len(),
                depth == self.elements@[at as int].depth,
                sub_element(self.elements@, at as int, tag@) == find_child(
                    self.elements@,
                    depth as int,
                    tag@,
                    j as int,
                ),
            decreases self.elements@.len() - j,
        {
            if self.elements[j].depth - 1 == depth && same_text(
                self.elements[j].tag.as_str(),
                tag,
            ) {
                return Some(j);
            }
            j += 1;
        }
        None
    }

    /// Lists the sub-elements of an element with a tag, in document order.
    pub fn find_all_sub_elements(&self, at: usize, tag: &str) -> (r: Vec<usize>)
        requires
            at < self.elements.len(),
        ensures
            r@.map_values(|j: usize| j as int) == sub_elements(self.elements@, at as int, tag@),
            forall|k: int| 0 <= k < r@.len() ==> at < (#[trigger] r@[k]) < self.elements@.len(),
    {
        let depth = self.elements[at].depth;
        let mut found: Vec<usize> = Vec::new();
        let mut j: usize = at + 1;
        let ghost all = sub_elements(self.elements@, at as int, tag@);
        while j < self.elements.len() && self.elements[j].depth > depth
            invariant
                at < j <= self.elements@.len(),
                depth == self.elements@[at as int].depth,
                all == found@.map_values(|j: usize| j as int) + collect_children(
                    self.elements@,
                    depth as int,
                    tag@,
                    j as int,
                ),
                forall|k: int|
                    0 <= k < found@.len() ==> at < (#[trigger] found@[k]) < self.elements@.len(),
            decreases self.elements@.len() - j,
        {
            if self.elements[j].depth - 1 == depth && same_text(
                self.elements[j].tag.as_str(),
                tag,
            ) {
                let ghost before = found@;
                found.push(j);
                assert(found@.map_values(|j: usize| j as int) =~= before.map_values(
                    |j: usize| j as int,
                ).push(j as int));
            }
            j += 1;
        }
        assert(all =~= found@.map_values(|j: usize| j as int));
        found
    }

    /// Reads the text of the first sub-element of an element with a tag.
    pub fn get_sub_element_text(&self, at: usize, tag: &str) -> (r: Option<&String>)
        requires
            at < self.elements@.len(),
        ensures
            r.is_some() == sub_element_text(self.elements@, at as int, tag@).is_some(),
            r matches Some(t) ==> Some(t@) == sub_element_text(self.elements@, at as int, tag@),
    {
        match self.find_sub_element(at, tag) {
            Some(j) => match &self.elements[j].text {
                Some(t) => Some(t),
                None => None,
            },
            None => None,
        }
    }

    /// Finds the first element with a short name.
    pub fn find_element_by_short_name(&self, short_name: &str) -> (r: Option<usize>)
        ensures
            r.is_some() == find_named(self.elements@, short_name@, 0).is_some(),
            r matches Some(j) ==> Some(j as int) == find_named(self.elements@, short_name@, 0) && j
                < self.elements@.len(),
    {
        let mut j: usize = 0;
        while j < self.elements.len()
            invariant
                j <= self.elements@.len(),
                find_named(self.elements@, short_name@, 0) == find_named(
                    self.elements@,
                    short_name@,
                    j as int,
                ),
            decreases self.elements@.len() - j,
        {
            if let Some(name) = &self.elements[j].name {
                if same_text(name.as_str(), short_name) {
                    return Some(j);
                }
            }
            j += 1;
        }
        None
    }

    /// Finds the first element with a path.
    pub fn find_element_by_path(&self, path: &str) -> (r: Option<usize>)
        ensures
            r.is_some() == find_at_path(self.elements@, path@, 0).is_some(),
            r matches Some(j) ==> Some(j as int) == find_at_path(self.elements@, path@, 0) && j
                < self.elements@.len(),
    {
        let mut j: usize = 0;
        while j < self.elements.len()
            invariant
                j <= self.elements@.len(),
                find_at_path(self.elements@, path@, 0) == find_at_path(
                    self.elements@,
                    path@,
                    j as int,
                ),
            decreases self.elements@.len() - j,
        {
            if let Some(p) = &self.elements[j].path {
                if same_text(p.as_str(), path) {
                    return Some(j);
                }
            }
            j += 1;
        }
        None
    }
}

/// The bit pattern of the binary64 value that a numerical text of a
/// description denotes, as `CharacterData::parse_float` of the crate
/// `autosar-data` reads it; nothing where the text is no number.
pub uninterp spec fn numerical_bits(text: Seq<char>) -> Option<u64>;

/// Reads a numerical text with `CharacterData::parse_float` of the crate
/// `autosar-data`, which accepts decimal numbers with or without fraction
/// and exponent as well as hexadecimal, octal and binary integers, and hands
/// back the bit pattern of the value. The result depends on the text alone.
#[verifier::external_body]
fn parse_numerical(text: &str) -> (r: Option<u64>)
    ensures
        r == numerical_bits(text@),
{
    match autosar_data::CharacterData::String(text.to_string()).parse_float() {
        Some(v) => Some(v.to_bits()),
        None => None,
    }
}

/// The scalar that a numerical text denotes.
pub open spec fn scalar_of(text: Option<Seq<char>>) -> Option<Scalar> {
    match text {
        Some(t) => match numerical_bits(t) {
            Some(bits) => Some(Scalar::Double(bits)),
            None => None,
        },
        None => None,
    }
}

/// The number that a text denotes in decimal, where there is a text that
/// denotes one of at most `max`; else the default.
pub open spec fn number_or(text: Option<Seq<char>>, max: nat, default: u64) -> u64 {
    match text {
        Some(t) => match bounded_number(t, 10, max) {
            Some(v) => v,
            None => default,
        },
        None => default,
    }
}

/// The largest raw value of a signal of `length` bits.
pub open spec fn default_max(length: u16) -> Scalar {
    if length < 64 {
        Scalar::Whole((vstd::arithmetic::power2::pow2(length as nat) - 1) as u64)
    } else {
        Scalar::Whole(u64::MAX)
    }
}

/// The CAN identifier that a text without surrounding whitespace denotes:
/// hexadecimal behind `0x` or `0X`, else decimal; at most 32 bits.
pub open spec fn plain_can_id(t: Seq<char>) -> Option<u32> {
    let number = if t.len() >= 2 && t[0] == '0' && (t[1] == 'x' || t[1] == 'X') {
        bounded_number(t.skip(2), 16, u32::MAX as nat)
    } else {
        bounded_number(t, 10, u32::MAX as nat)
    };
    match number {
        Some(v) => Some(v as u32),
        None => None,
    }
}

/// The CAN identifier that a text denotes, whitespace at its ends aside.
pub open spec fn can_id_of(text: Seq<char>) -> Option<u32> {
    plain_can_id(trimmed_text(text))
}

/// The element that a reference element points to: the first element whose
/// short name is the last segment of the reference's text.
pub open spec fn referenced(els: Seq<ArxmlElement>, reference: int) -> Option<int> {
    match option_text(els[reference].text) {
        Some(t) => find_named(els, last_segment_of(t), 0),
        None => None,
    }
}

/// The identifier that a list of names and identifiers gives to a name: that
/// of the last entry with the name.
pub open spec fn assigned_id(entries: Seq<(Seq<char>, u32)>, name: Seq<char>) -> Option<u32>
    decreases entries.len(),
{
    if entries.len() == 0 {
        None
    } else if entries.last().0 == name {
        Some(entries.last().1)
    } else {
        assigned_id(entries.drop_last(), name)
    }
}

/// A name with the CAN identifier found for it.
pub struct NamedId {
    pub name: String,
    pub id: u32,
}

/// The names and identifiers of a list of entries.
pub open spec fn named_ids(entries: Seq<NamedId>) -> Seq<(Seq<char>, u32)> {
    entries.map_values(|e: NamedId| (e.name@, e.id))
}

/// The frame path and identifier that element `at` gives, where it is a
/// frame triggering with an identifier and a frame reference.
pub open spec fn frame_entry(els: Seq<ArxmlElement>, at: int) -> Option<(Seq<char>, u32)> {
    if els[at].tag@ != "CAN-FRAME-TRIGGERING"@ {
        None
    } else {
        match sub_element_text(els, at, "IDENTIFIER"@) {
            Some(t) => match (can_id_of(t), sub_element_text(els, at, "FRAME-REF"@)) {
                (Some(id), Some(path)) => Some((path, id)),
                _ => None,
            },
            None => None,
        }
    }
}

/// The frame paths and identifiers of the first `upto` elements.
pub open spec fn frame_ids(els: Seq<ArxmlElement>, upto: int) -> Seq<(Seq<char>, u32)>
    decreases upto,
{
    if upto <= 0 {
        Seq::empty()
    } else {
        match frame_entry(els, upto - 1) {
            Some(e) => frame_ids(els, upto - 1).push(e),
            None => frame_ids(els, upto - 1),
        }
    }
}

/// The PDU name that a frame mapping gives: the last segment of its PDU
/// reference, where that is not empty.
pub open spec fn mapped_pdu_name(els: Seq<ArxmlElement>, mapping: int) -> Option<Seq<char>> {
    match sub_element_text(els, mapping, "PDU-REF"@) {
        Some(t) => if last_segment_of(t).len() > 0 {
            Some(last_segment_of(t))
        } else {
            None
        },
        None => None,
    }
}

/// The PDU names of a list of frame mappings, each with the identifier of
/// the frame.
pub open spec fn mapped_pdus(els: Seq<ArxmlElement>, mappings: Seq<int>, id: u32) -> Seq<
    (Seq<char>, u32),
>
    decreases mappings.len(),
{
    if mappings.len() == 0 {
        Seq::empty()
    } else {
        match mapped_pdu_name(els, mappings.last()) {
            Some(name) => mapped_pdus(els, mappings.drop_last(), id).push((name, id)),
            None => mapped_pdus(els, mappings.drop_last(), id),
        }
    }
}

/// The PDU names and identifiers that element `at` gives, where it is a
/// frame whose path has an identifier.
pub open spec fn frame_pdus(
    els: Seq<ArxmlElement>,
    frames: Seq<(Seq<char>, u32)>,
    at: int,
) -> Seq<(Seq<char>, u32)> {
    if els[at].tag@ != "CAN-FRAME"@ {
        Seq::empty()
    } else {
        match option_text(els[at].path) {
            Some(path) => match (
                assigned_id(frames, path),
                sub_element(els, at, "PDU-TO-FRAME-MAPPINGS"@),
            ) {
                (Some(id), Some(m)) => mapped_pdus(
                    els,
                    sub_elements(els, m, "PDU-TO-FRAME-MAPPING"@),
                    id,
                ),
                _ => Seq::empty(),
            },
            None => Seq::empty(),
        }
    }
}

/// The PDU names and identifiers of the first `upto` elements.
pub open spec fn pdu_ids(els: Seq<ArxmlElement>, frames: Seq<(Seq<char>, u32)>, upto: int) -> Seq<
    (Seq<char>, u32),
>
    decreases upto,
{
    if upto <= 0 {
        Seq::empty()
    } else {
        pdu_ids(els, frames, upto - 1) + frame_pdus(els, frames, upto - 1)
    }
}

/// The linear conversion of a signal, with the limits where they are given.
#[derive(Clone, Copy)]
pub struct Conversion {
    pub factor: Scalar,
    pub offset: Scalar,
    pub min: Option<Scalar>,
    pub max: Option<Scalar>,
}

/// The scale of the computation method of a system signal: the first scale
/// of the method that the signal holds or refers to.
pub open spec fn compu_scale(els: Seq<ArxmlElement>, system_signal: int) -> Option<int> {
    let method = match sub_element(els, system_signal, "COMPU-METHOD"@) {
        Some(m) => Some(m),
        None => match sub_element(els, system_signal, "COMPU-METHOD-REF"@) {
            Some(r) => referenced(els, r),
            None => None,
        },
    };
    match method {
        Some(m) => match sub_element(els, m, "COMPU-INTERNAL-TO-PHYS"@) {
            Some(p) => match sub_element(els, p, "COMPU-SCALES"@) {
                Some(s) => sub_element(els, s, "COMPU-SCALE"@),
                None => None,
            },
            None => None,
        },
        None => None,
    }
}

/// The numerator coefficients of a scale, where it has two at least.
pub open spec fn numerator(els: Seq<ArxmlElement>, scale: int) -> Option<Seq<int>> {
    match sub_element(els, scale, "COMPU-RATIONAL-COEFFS"@) {
        Some(r) => match sub_element(els, r, "COMPU-NUMERATOR"@) {
            Some(n) => if sub_elements(els, n, "V"@).len() >= 2 {
                Some(sub_elements(els, n, "V"@))
            } else {
                None
            },
            None => None,
        },
        None => None,
    }
}

/// The constant of a scale, where it has one that is a number.
pub open spec fn scale_constant(els: Seq<ArxmlElement>, scale: int) -> Option<Scalar> {
    match sub_element(els, scale, "COMPU-CONST"@) {
        Some(c) => scalar_of(sub_element_text(els, c, "VT"@)),
        None => None,
    }
}

/// The conversion that the parts of a scale make up. With numerator
/// coefficients `v0, v1` the factor is `v1` and the offset `v0`, each where
/// it is a number; a constant gives factor zero and itself as offset.
/// Without either the factor is one and the offset zero.
pub open spec fn conversion_of(
    min: Option<Scalar>,
    max: Option<Scalar>,
    coefficients: Option<(Option<Scalar>, Option<Scalar>)>,
    constant: Option<Scalar>,
) -> Conversion {
    let (factor, offset) = match coefficients {
        Some((v0, v1)) => (
            match v1 {
                Some(f) => f,
                None => Scalar::Whole(1),
            },
            match v0 {
                Some(o) => o,
                None => Scalar::Whole(0),
            },
        ),
        None => (Scalar::Whole(1), Scalar::Whole(0)),
    };
    match constant {
        Some(c) => Conversion { factor: Scalar::Whole(0), offset: c, min, max },
        None => Conversion { factor, offset, min, max },
    }
}

impl Conversion {
    /// Makes up a conversion from the parts of a scale: its limits, its
    /// first two numerator coefficients and its constant.
    pub fn of_parts(
        min: Option<Scalar>,
        max: Option<Scalar>,
        coefficients: Option<(Option<Scalar>, Option<Scalar>)>,
        constant: Option<Scalar>,
    ) -> (r: Conversion)
        ensures
            r == conversion_of(min, max, coefficients, constant),
    {
        let mut factor = Scalar::Whole(1);
        let mut offset = Scalar::Whole(0);
        if let Some((v0, v1)) = coefficients {
            if let Some(val) = v0 {
                offset = val;
            }
            if let Some(val) = v1 {
                factor = val;
            }
        }
        if let Some(val) = constant {
            offset = val;
            factor = Scalar::Whole(0);
        }
        Conversion { factor, offset, min, max }
    }
}

/// The conversion that a scale describes. With numerator coefficients
/// `v0, v1` the physical value is `v0 + v1 * raw`; a constant gives factor
/// zero and itself as offset. Without either the factor is one and the
/// offset zero.
pub open spec fn scale_conversion(els: Seq<ArxmlElement>, scale: int) -> Conversion {
    conversion_of(
        scalar_of(sub_element_text(els, scale, "LOWER-LIMIT"@)),
        scalar_of(sub_element_text(els, scale, "UPPER-LIMIT"@)),
        match numerator(els, scale) {
            Some(v) => Some(
                (scalar_of(option_text(els[v[0]].text)), scalar_of(option_text(els[v[1]].text))),
            ),
            None => None,
        },
        scale_constant(els, scale),
    )
}

/// What the system signal behind a signal says of it, as mathematical
/// values.
pub struct SignalPropertiesView {
    pub factor: Scalar,
    pub offset: Scalar,
    pub unit: Option<Seq<char>>,
    pub min: Scalar,
    pub max: Scalar,
}

/// What the system signal behind a signal says of it.
pub struct SignalProperties {
    pub factor: Scalar,
    pub offset: Scalar,
    pub unit: Option<String>,
    pub min: Scalar,
    pub max: Scalar,
}

impl View for SignalProperties {
    type V = SignalPropertiesView;

    open spec fn view(&self) -> SignalPropertiesView {
        SignalPropertiesView {
            factor: self.factor,
            offset: self.offset,
            unit: option_text(self.unit),
            min: self.min,
            max: self.max,
        }
    }
}

/// The properties of a signal of `length` bits with a unit and a conversion:
/// factor and offset of the conversion, and its limits where they are given
/// and finite; where there is no conversion, or a limit is missing, what
/// holds of a plain signal.
pub open spec fn converted_properties(
    length: u16,
    unit: Option<Seq<char>>,
    conversion: Option<Conversion>,
) -> SignalPropertiesView {
    let plain = plain_properties(length);
    match conversion {
        Some(c) => SignalPropertiesView {
            factor: c.factor,
            offset: c.offset,
            unit,
            min: limit_or(c.min, plain.min),
            max: limit_or(c.max, plain.max),
        },
        None => SignalPropertiesView { unit, ..plain },
    }
}

impl SignalProperties {
    /// The properties of a signal of `length` bits with a unit and a
    /// conversion.
    pub fn with_conversion(length: u16, unit: Option<String>, conversion: Option<Conversion>) -> (r:
        SignalProperties)
        ensures
            r@ == converted_properties(length, option_text(unit), conversion),
    {
        let mut factor = Scalar::Whole(1);
        let mut offset = Scalar::Whole(0);
        let mut min = Scalar::Whole(0);
        let mut max = largest_raw(length);
        if let Some(c) = conversion {
            factor = c.factor;
            offset = c.offset;
            if let Some(mi) = c.min {
                if mi.is_finite() {
                    min = mi;
                }
            }
            if let Some(ma) = c.max {
                if ma.is_finite() {
                    max = ma;
                }
            }
        }
        SignalProperties { factor, offset, unit, min, max }
    }
}

/// The properties of a signal of which nothing more is known: factor one,
/// offset zero, no unit, and the range of its bits.
pub open spec fn plain_properties(length: u16) -> SignalPropertiesView {
    SignalPropertiesView {
        factor: Scalar::Whole(1),
        offset: Scalar::Whole(0),
        unit: None,
        min: Scalar::Whole(0),
        max: default_max(length),
    }
}

/// The unit of a system signal: the last segment of its unit reference,
/// where that is not empty.
pub open spec fn unit_of(els: Seq<ArxmlElement>, system_signal: int) -> Option<Seq<char>> {
    match sub_element_text(els, system_signal, "UNIT-REF"@) {
        Some(t) => if last_segment_of(t).len() > 0 {
            Some(last_segment_of(t))
        } else {
            None
        },
        None => None,
    }
}

/// A limit of a scale where it is given and finite, else the default.
pub open spec fn limit_or(limit: Option<Scalar>, default: Scalar) -> Scalar {
    match limit {
        Some(l) => if l.is_finite() {
            l
        } else {
            default
        },
        None => default,
    }
}

/// The properties of a signal: those that the system signal it refers to
/// gives it, with its unit and the conversion of its computation method;
/// the plain ones where it refers to none.
pub open spec fn signal_properties(els: Seq<ArxmlElement>, i_signal: int, length: u16) -> SignalPropertiesView {
    match sub_element(els, i_signal, "SYSTEM-SIGNAL-REF"@) {
        Some(r) => match referenced(els, r) {
            Some(system_signal) => converted_properties(
                length,
                unit_of(els, system_signal),
                match compu_scale(els, system_signal) {
                    Some(scale) => Some(scale_conversion(els, scale)),
                    None => None,
                },
            ),
            None => plain_properties(length),
        },
        None => plain_properties(length),
    }
}

/// When a multiplexed signal is present, as the name of the selector and the
/// one value that activates the signal.
pub open spec fn gate_view(gate: Option<(Seq<char>, u64)>) -> Option<MultiplexerInfoView> {
    match gate {
        Some((name, value)) => Some(
            MultiplexerInfoView { multiplexer_signal: name, multiplexer_values: seq![value] },
        ),
        None => None,
    }
}

/// The byte order that a packing text names: big-endian where it holds
/// `MOST-SIGNIFICANT-BYTE-FIRST`, else little-endian.
pub open spec fn byte_order_of(text: Option<Seq<char>>) -> ByteOrder {
    match text {
        Some(t) => if holds_text(t, "MOST-SIGNIFICANT-BYTE-FIRST"@) {
            ByteOrder::BigEndian
        } else {
            ByteOrder::LittleEndian
        },
        None => ByteOrder::LittleEndian,
    }
}

/// The signal that a signal mapping defines; nothing where the mapping has
/// no signal reference with text. The signal is unsigned and bears the name
/// of the referenced signal; its length and properties are those of the
/// first element of that name, or 8 bits and the plain properties where
/// there is none.
pub open spec fn signal_mapping(
    els: Seq<ArxmlElement>,
    mapping: int,
    gate: Option<(Seq<char>, u64)>,
) -> Option<SignalDefinitionView> {
    match sub_element_text(els, mapping, "I-SIGNAL-REF"@) {
        Some(path) => {
            let name = last_segment_of(path);
            let length = match find_named(els, name, 0) {
                Some(i_signal) => number_or(
                    sub_element_text(els, i_signal, "LENGTH"@),
                    u16::MAX as nat,
                    8,
                ) as u16,
                None => 8u16,
            };
            let properties = match find_named(els, name, 0) {
                Some(i_signal) => signal_properties(els, i_signal, length),
                None => plain_properties(8),
            };
            Some(
                SignalDefinitionView {
                    name,
                    start_bit: number_or(
                        sub_element_text(els, mapping, "START-POSITION"@),
                        u16::MAX as nat,
                        0,
                    ) as u16,
                    length,
                    byte_order: byte_order_of(sub_element_text(els, mapping, "PACKING-BYTE-ORDER"@)),
                    value_type: ValueType::Unsigned,
                    factor: properties.factor,
                    offset: properties.offset,
                    min: properties.min,
                    max: properties.max,
                    unit: properties.unit,
                    value_table: None,
                    multiplexer_info: gate_view(gate),
                },
            )
        },
        None => None,
    }
}

/// The signals of a list of signal mappings, in their order.
pub open spec fn mapped_signals(
    els: Seq<ArxmlElement>,
    mappings: Seq<int>,
    gate: Option<(Seq<char>, u64)>,
) -> Seq<SignalDefinitionView>
    decreases mappings.len(),
{
    if mappings.len() == 0 {
        Seq::empty()
    } else {
        match signal_mapping(els, mappings.last(), gate) {
            Some(s) => mapped_signals(els, mappings.drop_last(), gate).push(s),
            None => mapped_signals(els, mappings.drop_last(), gate),
        }
    }
}

/// The signals of a PDU: those of its signal mappings.
pub open spec fn pdu_signals(els: Seq<ArxmlElement>, pdu: int, gate: Option<(Seq<char>, u64)>) -> Seq<
    SignalDefinitionView,
> {
    match sub_element(els, pdu, "I-SIGNAL-TO-PDU-MAPPINGS"@) {
        Some(m) => mapped_signals(els, sub_elements(els, m, "I-SIGNAL-TO-I-PDU-MAPPING"@), gate),
        None => Seq::empty(),
    }
}

/// The signals of the PDUs that a list of references points to, in the
/// order of the references.
pub open spec fn referenced_signals(
    els: Seq<ArxmlElement>,
    references: Seq<int>,
    gate: Option<(Seq<char>, u64)>,
) -> Seq<SignalDefinitionView>
    decreases references.len(),
{
    if references.len() == 0 {
        Seq::empty()
    } else {
        let before = referenced_signals(els, references.drop_last(), gate);
        match referenced(els, references.last()) {
            Some(pdu) => before + pdu_signals(els, pdu, gate),
            None => before,
        }
    }
}

/// The signals of a list of dynamic-part alternatives: those of the PDUs
/// each refers to, gated by the selector at the alternative's code.
pub open spec fn alternative_signals(
    els: Seq<ArxmlElement>,
    alternatives: Seq<int>,
    selector: Seq<char>,
) -> Seq<SignalDefinitionView>
    decreases alternatives.len(),
{
    if alternatives.len() == 0 {
        Seq::empty()
    } else {
        let alt = alternatives.last();
        let code = number_or(
            sub_element_text(els, alt, "SELECTOR-FIELD-CODE"@),
            u64::MAX as nat,
            0,
        );
        alternative_signals(els, alternatives.drop_last(), selector) + referenced_signals(
            els,
            sub_elements(els, alt, "I-PDU-REF"@),
            Some((selector, code)),
        )
    }
}

/// The message that a signal PDU defines; nothing where it has no short
/// name, no CAN identifier or no signal.
pub open spec fn signal_pdu_message(
    els: Seq<ArxmlElement>,
    ids: Seq<(Seq<char>, u32)>,
    source: Seq<char>,
    at: int,
) -> Option<MessageDefinitionView> {
    match option_text(els[at].name) {
        Some(name) => match assigned_id(ids, name) {
            Some(id) => if pdu_signals(els, at, None).len() == 0 {
                None
            } else {
                Some(
                    MessageDefinitionView {
                        id,
                        name,
                        size: number_or(
                            sub_element_text(els, at, "LENGTH"@),
                            usize::MAX as nat,
                            8,
                        ) as usize,
                        sender: None,
                        signals: pdu_signals(els, at, None),
                        is_multiplexed: false,
                        multiplexer_signal: None,
                        source,
                    },
                )
            },
            None => None,
        },
        None => None,
    }
}

/// The selector signal of a multiplexed PDU: unsigned, little-endian and
/// unscaled, at the position and of the length that the PDU gives.
pub open spec fn selector_signal(els: Seq<ArxmlElement>, at: int, name: Seq<char>) -> SignalDefinitionView {
    let length = number_or(
        sub_element_text(els, at, "SELECTOR-FIELD-LENGTH"@),
        u16::MAX as nat,
        8,
    ) as u16;
    SignalDefinitionView {
        name: name + "_selector"@,
        start_bit: number_or(
            sub_element_text(els, at, "SELECTOR-FIELD-START-POSITION"@),
            u16::MAX as nat,
            0,
        ) as u16,
        length,
        byte_order: ByteOrder::LittleEndian,
        value_type: ValueType::Unsigned,
        factor: Scalar::Whole(1),
        offset: Scalar::Whole(0),
        min: Scalar::Whole(0),
        max: default_max(length),
        unit: None,
        value_table: None,
        multiplexer_info: None,
    }
}

/// The signals of a multiplexed PDU: its selector, the signals of its
/// static parts, then those of its alternatives.
pub open spec fn multiplexed_signals(els: Seq<ArxmlElement>, at: int, name: Seq<char>) -> Seq<
    SignalDefinitionView,
> {
    let fixed = match sub_element(els, at, "STATIC-PARTS"@) {
        Some(p) => referenced_signals(els, sub_elements(els, p, "I-PDU-REF"@), None),
        None => Seq::empty(),
    };
    let gated = match sub_element(els, at, "DYNAMIC-PARTS"@) {
        Some(p) => alternative_signals(
            els,
            sub_elements(els, p, "DYNAMIC-PART-ALTERNATIVE"@),
            name + "_selector"@,
        ),
        None => Seq::empty(),
    };
    seq![selector_signal(els, at, name)] + fixed + gated
}

/// The message that a multiplexed PDU defines; nothing where it has no
/// short name or no CAN identifier.
pub open spec fn multiplexed_pdu_message(
    els: Seq<ArxmlElement>,
    ids: Seq<(Seq<char>, u32)>,
    source: Seq<char>,
    at: int,
) -> Option<MessageDefinitionView> {
    match option_text(els[at].name) {
        Some(name) => match assigned_id(ids, name) {
            Some(id) => Some(
                MessageDefinitionView {
                    id,
                    name,
                    size: number_or(sub_element_text(els, at, "LENGTH"@), usize::MAX as nat, 10) as usize,
                    sender: None,
                    signals: multiplexed_signals(els, at, name),
                    is_multiplexed: true,
                    multiplexer_signal: Some(name + "_selector"@),
                    source,
                },
            ),
            None => None,
        },
        None => None,
    }
}

/// The identifier given to a contained PDU: the low 16 bits of the hash that
/// the standard library's default hasher gives to the bytes of its name
/// followed by the byte `0xff`.
pub open spec fn pdu_id_of(name_bytes: Seq<u8>) -> u32 {
    (<std::collections::hash_map::DefaultHasher as vstd::std_specs::hash::DefaultHasherAdditionalSpecFns>::spec_finish(
        seq![name_bytes, seq![0xffu8]],
    ) & 0xFFFF) as u32
}

/// The size of the PDU at a path: its length where the path leads to an
/// element with one, else 8.
pub open spec fn pdu_size_at(els: Seq<ArxmlElement>, path: Seq<char>) -> usize {
    match find_at_path(els, path, 0) {
        Some(p) => number_or(sub_element_text(els, p, "LENGTH"@), usize::MAX as nat, 8) as usize,
        None => 8,
    }
}

/// The path of the PDU behind a triggering reference: the text of the PDU
/// reference of the triggering at the path that the reference gives.
pub open spec fn contained_pdu_path(els: Seq<ArxmlElement>, reference: int) -> Option<Seq<char>> {
    match option_text(els[reference].text) {
        Some(path) => match find_at_path(els, path, 0) {
            Some(triggering) => sub_element_text(els, triggering, "I-PDU-REF"@),
            None => None,
        },
        None => None,
    }
}

/// The layout entries of a container from reference `k` on, the next PDU
/// lying at `position`. PDUs follow one another without gap; the first one
/// that would reach beyond the container's length ends the list and is left
/// out, so that every PDU listed ends within the container.
pub open spec fn contained_from(
    els: Seq<ArxmlElement>,
    references: Seq<int>,
    length: usize,
    k: int,
    position: usize,
) -> Seq<ContainedPduInfoView>
    decreases references.len() - k,
{
    if k < 0 || k >= references.len() {
        Seq::empty()
    } else {
        match contained_pdu_path(els, references[k]) {
            Some(path) => {
                let size = pdu_size_at(els, path);
                let entry = ContainedPduInfoView {
                    pdu_id: pdu_id_of(vstd::utf8::encode_utf8(last_segment_of(path))),
                    name: last_segment_of(path),
                    position,
                    size,
                };
                if position + size > length {
                    Seq::empty()
                } else {
                    seq![entry] + contained_from(
                        els,
                        references,
                        length,
                        k + 1,
                        (position + size) as usize,
                    )
                }
            },
            None => contained_from(els, references, length, k + 1, position),
        }
    }
}

/// Whether the PDUs of a layout lie one behind the other without gap or
/// overlap and within a container: the first one at `start`, each further
/// one where the one before ends, and every one ending within `length`.
pub open spec fn laid_out_in_sequence(
    layout: Seq<ContainedPduInfoView>,
    start: usize,
    length: usize,
) -> bool {
    &&& layout.len() > 0 ==> layout[0].position == start
    &&& forall|i: int|
        0 <= i < layout.len() - 1 ==> (#[trigger] layout[i]).position + layout[i].size
            == layout[i + 1].position
    &&& forall|i: int|
        0 <= i < layout.len() ==> (#[trigger] layout[i]).position + layout[i].size <= length
}

/// The layout that is read for a container lies in sequence from the
/// position it starts at.
pub proof fn lemma_contained_layout(
    els: Seq<ArxmlElement>,
    references: Seq<int>,
    length: usize,
    k: int,
    position: usize,
)
    ensures
        laid_out_in_sequence(contained_from(els, references, length, k, position), position, length),
    decreases references.len() - k,
{
    if 0 <= k < references.len() {
        match contained_pdu_path(els, references[k]) {
            Some(path) => {
                let size = pdu_size_at(els, path);
                if position + size <= length {
                    let next = (position + size) as usize;
                    let rest = contained_from(els, references, length, k + 1, next);
                    lemma_contained_layout(els, references, length, k + 1, next);
                    let layout = contained_from(els, references, length, k, position);
                    assert forall|i: int| 0 <= i < layout.len() - 1 implies (
                    #[trigger] layout[i]).position + layout[i].size == layout[i
                        + 1].position by {
                        if i > 0 {
                            assert(layout[i] == rest[i - 1]);
                            assert(layout[i + 1] == rest[i]);
                        } else {
                            assert(layout[1] == rest[0]);
                        }
                    }
                    assert forall|i: int| 0 <= i < layout.len() implies (
                    #[trigger] layout[i]).position + layout[i].size <= length by {
                        if i > 0 {
                            assert(layout[i] == rest[i - 1]);
                        }
                    }
                }
            },
            None => {
                lemma_contained_layout(els, references, length, k + 1, position);
            },
        }
    }
}

/// The layout entries of a container PDU.
pub open spec fn contained_pdus(els: Seq<ArxmlElement>, at: int, length: usize) -> Seq<
    ContainedPduInfoView,
> {
    match sub_element(els, at, "CONTAINED-PDU-TRIGGERING-REFS"@) {
        Some(r) => contained_from(
            els,
            sub_elements(els, r, "CONTAINED-PDU-TRIGGERING-REF"@),
            length,
            0,
            0,
        ),
        None => Seq::empty(),
    }
}

/// The container that a container PDU defines; nothing where it has no
/// short name or no CAN identifier. A short header makes it dynamic with
/// headers of 4 bytes, a long header dynamic with headers of 8 bytes, and
/// without header it is static.
pub open spec fn container_pdu_definition(
    els: Seq<ArxmlElement>,
    ids: Seq<(Seq<char>, u32)>,
    source: Seq<char>,
    at: int,
) -> Option<ContainerDefinitionView> {
    match option_text(els[at].name) {
        Some(name) => match assigned_id(ids, name) {
            Some(id) => {
                let length = number_or(sub_element_text(els, at, "LENGTH"@), usize::MAX as nat, 64) as usize;
                let header = match sub_element_text(els, at, "HEADER-TYPE"@) {
                    Some(t) => t,
                    None => "NONE"@,
                };
                let pdus = contained_pdus(els, at, length);
                let short = holds_text(header, "SHORT-HEADER"@);
                let long = holds_text(header, "LONG-HEADER"@);
                Some(
                    ContainerDefinitionView {
                        id,
                        name,
                        container_type: if short || long {
                            ContainerType::Dynamic
                        } else {
                            ContainerType::Static
                        },
                        layout: if short {
                            ContainerLayoutView::Dynamic { header_size: 4, pdus }
                        } else if long {
                            ContainerLayoutView::Dynamic { header_size: 8, pdus }
                        } else {
                            ContainerLayoutView::Static { pdus }
                        },
                        source,
                    },
                )
            },
            None => None,
        },
        None => None,
    }
}

/// The message that element `at` defines, where it is a signal PDU or a
/// multiplexed PDU.
pub open spec fn element_message(
    els: Seq<ArxmlElement>,
    ids: Seq<(Seq<char>, u32)>,
    source: Seq<char>,
    at: int,
) -> Option<MessageDefinitionView> {
    if els[at].tag@ == "I-SIGNAL-I-PDU"@ {
        signal_pdu_message(els, ids, source, at)
    } else if els[at].tag@ == "MULTIPLEXED-I-PDU"@ {
        multiplexed_pdu_message(els, ids, source, at)
    } else {
        None
    }
}

/// The container that element `at` defines, where it is a container PDU.
pub open spec fn element_container(
    els: Seq<ArxmlElement>,
    ids: Seq<(Seq<char>, u32)>,
    source: Seq<char>,
    at: int,
) -> Option<ContainerDefinitionView> {
    if els[at].tag@ == "CONTAINER-I-PDU"@ {
        container_pdu_definition(els, ids, source, at)
    } else {
        None
    }
}

/// The messages that the first `upto` elements define, in document order.
pub open spec fn document_messages(
    els: Seq<ArxmlElement>,
    ids: Seq<(Seq<char>, u32)>,
    source: Seq<char>,
    upto: int,
) -> Seq<MessageDefinitionView>
    decreases upto,
{
    if upto <= 0 {
        Seq::empty()
    } else {
        match element_message(els, ids, source, upto - 1) {
            Some(m) => document_messages(els, ids, source, upto - 1).push(m),
            None => document_messages(els, ids, source, upto - 1),
        }
    }
}

/// The containers that the first `upto` elements define, in document order.
pub open spec fn document_containers(
    els: Seq<ArxmlElement>,
    ids: Seq<(Seq<char>, u32)>,
    source: Seq<char>,
    upto: int,
) -> Seq<ContainerDefinitionView>
    decreases upto,
{
    if upto <= 0 {
        Seq::empty()
    } else {
        match element_container(els, ids, source, upto - 1) {
            Some(c) => document_containers(els, ids, source, upto - 1).push(c),
            None => document_containers(els, ids, source, upto - 1),
        }
    }
}

/// The PDU names and CAN identifiers of a description.
pub open spec fn document_ids(els: Seq<ArxmlElement>) -> Seq<(Seq<char>, u32)> {
    pdu_ids(els, frame_ids(els, els.len() as int), els.len() as int)
}

/// The view of an optional signal definition.
pub open spec fn option_signal_definition_view(s: Option<SignalDefinition>) -> Option<
    SignalDefinitionView,
> {
    match s {
        Some(d) => Some(d@),
        None => None,
    }
}

/// The view of an optional message definition.
pub open spec fn option_message_view(m: Option<MessageDefinition>) -> Option<MessageDefinitionView> {
    match m {
        Some(d) => Some(d@),
        None => None,
    }
}

/// The view of an optional container definition.
pub open spec fn option_container_view(c: Option<ContainerDefinition>) -> Option<
    ContainerDefinitionView,
> {
    match c {
        Some(d) => Some(d@),
        None => None,
    }
}

/// The characters of an optional borrowed string.
pub open spec fn borrowed_text(s: Option<&String>) -> Option<Seq<char>> {
    match s {
        Some(t) => Some(t@),
        None => None,
    }
}

/// Reads a decimal number of at most `max` from an optional text, with a
/// default for a missing or unreadable one.
fn read_number_or(text: Option<&String>, max: u64, default: u64) -> (r: u64)
    requires
        default <= max,
    ensures
        r == number_or(borrowed_text(text), max as nat, default),
        r <= max,
{
    match text {
        Some(t) => match parse_number(t.as_str(), 10, max) {
            Some(v) => v,
            None => default,
        },
        None => default,
    }
}

/// Reads a scalar from an optional numerical text.
fn read_scalar(text: Option<&String>) -> (r: Option<Scalar>)
    ensures
        r == scalar_of(borrowed_text(text)),
{
    match text {
        Some(t) => match parse_numerical(t.as_str()) {
            Some(bits) => Some(Scalar::Double(bits)),
            None => None,
        },
        None => None,
    }
}

/// The largest raw value of a signal of `length` bits.
fn largest_raw(length: u16) -> (r: Scalar)
    ensures
        r == default_max(length),
{
    if length < 64 {
        proof {
            vstd::bits::lemma_u64_pow2_no_overflow(length as nat);
            vstd::bits::lemma_u64_shl_is_mul(1, length as u64);
        }
        Scalar::Whole((1u64 << (length as u64)) - 1)
    } else {
        Scalar::Whole(u64::MAX)
    }
}

/// Looks a name up in a list of names and identifiers.
fn lookup_id(entries: &Vec<NamedId>, name: &str) -> (r: Option<u32>)
    ensures
        r == assigned_id(named_ids(entries@), name@),
{
    let mut i: usize = entries.len();
    assert(entries@.take(i as int) =~= entries@);
    while i > 0
        invariant
            i <= entries@.len(),
            assigned_id(named_ids(entries@), name@) == assigned_id(
                named_ids(entries@.take(i as int)),
                name@,
            ),
        decreases i,
    {
        proof {
            let taken = named_ids(entries@.take(i as int));
            assert(taken.drop_last() =~= named_ids(entries@.take(i - 1)));
            assert(taken.last() == (entries@[i - 1].name@, entries@[i - 1].id));
        }
        i -= 1;
        if same_text(entries[i].name.as_str(), name) {
            return Some(entries[i].id);
        }
    }
    assert(named_ids(entries@.take(0)) =~= Seq::<(Seq<char>, u32)>::empty());
    None
}

/// The indices of a list as integers.
pub open spec fn indices(list: Seq<usize>) -> Seq<int> {
    list.map_values(|j: usize| j as int)
}

/// The reader of a description.
pub struct ArxmlParser<'a> {
    doc: &'a ArxmlDocument,
    source: String,
    pdu_to_can_id: Vec<NamedId>,
}

impl<'a> ArxmlParser<'a> {
    /// The elements of the description.
    pub closed spec fn elements(&self) -> Seq<ArxmlElement> {
        self.doc.elements@
    }

    /// The PDU names and CAN identifiers found so far.
    pub closed spec fn ids(&self) -> Seq<(Seq<char>, u32)> {
        named_ids(self.pdu_to_can_id@)
    }

    /// The name of the file the description was read from.
    pub closed spec fn source_name(&self) -> Seq<char> {
        self.source@
    }

    /// A reader of a description, with the CAN identifiers of its PDUs
    /// gathered.
    pub fn new(doc: &'a ArxmlDocument, source: String) -> (r: Self)
        ensures
            r.elements() == doc.elements@,
            r.source_name() == source@,
            r.ids() == document_ids(doc.elements@),
    {
        let pdu_to_can_id = Self::build_pdu_to_can_id_map(doc);
        ArxmlParser { doc, source, pdu_to_can_id }
    }

    /// Reads a CAN identifier from a text without surrounding whitespace:
    /// hexadecimal behind `0x` or `0X`, else decimal; at most 32 bits.
    pub fn read_can_id(text: &str) -> (r: Option<u32>)
        ensures
            r == plain_can_id(text@),
    {
        let len = text.unicode_len();
        let number = if len >= 2 && text.get_char(0) == '0' && (text.get_char(1) == 'x'
            || text.get_char(1) == 'X') {
            proof {
                assert(text@.subrange(2, len as int) =~= text@.skip(2));
            }
            parse_number(text.substring_char(2, len), 16, 0xFFFF_FFFF)
        } else {
            parse_number(text, 10, 0xFFFF_FFFF)
        };
        match number {
            Some(v) => Some(v as u32),
            None => None,
        }
    }

    /// Reads a CAN identifier: the text is trimmed and then read as
    /// [`ArxmlParser::read_can_id`] reads it.
    pub fn parse_can_id(text: &str) -> (r: Option<u32>)
        ensures
            r == can_id_of(text@),
    {
        Self::read_can_id(trimmed(text))
    }

    /// Gathers the CAN identifier of each PDU: first the identifier of each
    /// frame from the frame triggerings, then the PDUs of each frame from
    /// its frame mappings.
    pub fn build_pdu_to_can_id_map(doc: &ArxmlDocument) -> (r: Vec<NamedId>)
        ensures
            named_ids(r@) == document_ids(doc.elements@),
    {
        let els = &doc.elements;
        let mut frame_to_can_id: Vec<NamedId> = Vec::new();
        let mut i: usize = 0;
        assert(named_ids(frame_to_can_id@) =~= Seq::<(Seq<char>, u32)>::empty());
        while i < els.len()
            invariant
                i <= els@.len(),
                els == &doc.elements,
                named_ids(frame_to_can_id@) == frame_ids(els@, i as int),
            decreases els@.len() - i,
        {
            if same_text(els[i].tag.as_str(), "CAN-FRAME-TRIGGERING") {
                if let Some(id_text) = doc.get_sub_element_text(i, "IDENTIFIER") {
                    if let Some(can_id) = Self::parse_can_id(id_text.as_str()) {
                        if let Some(frame_path) = doc.get_sub_element_text(i, "FRAME-REF") {
                            let ghost before = frame_to_can_id@;
                            frame_to_can_id.push(NamedId { name: frame_path.clone(), id: can_id });
                            assert(named_ids(frame_to_can_id@) =~= named_ids(before).push(
                                (frame_path@, can_id),
                            ));
                        }
                    }
                }
            }
            i += 1;
        }
        let ghost frames = frame_ids(els@, els@.len() as int);
        let mut pdu_to_can_id: Vec<NamedId> = Vec::new();
        let mut i: usize = 0;
        assert(named_ids(pdu_to_can_id@) =~= Seq::<(Seq<char>, u32)>::empty());
        while i < els.len()
            invariant
                i <= els@.len(),
                els == &doc.elements,
                named_ids(frame_to_can_id@) == frames,
                named_ids(pdu_to_can_id@) == pdu_ids(els@, frames, i as int),
            decreases els@.len() - i,
        {
            let ghost so_far = named_ids(pdu_to_can_id@);
            let ghost added = frame_pdus(els@, frames, i as int);
            proof {
                assert(named_ids(pdu_to_can_id@) =~= so_far + Seq::<(Seq<char>, u32)>::empty());
            }
            if same_text(els[i].tag.as_str(), "CAN-FRAME") {
                if let Some(frame_path) = &els[i].path {
                    if let Some(can_id) = lookup_id(&frame_to_can_id, frame_path.as_str()) {
                        if let Some(mappings) = doc.find_sub_element(i, "PDU-TO-FRAME-MAPPINGS") {
                            let list = doc.find_all_sub_elements(mappings, "PDU-TO-FRAME-MAPPING");
                            let mut k: usize = 0;
                            assert(indices(list@).take(0) =~= Seq::<int>::empty());
                            while k < list.len()
                                invariant
                                    k <= list@.len(),
                                    els == &doc.elements,
                                    forall|n: int|
                                        0 <= n < list@.len() ==> (#[trigger] list@[n]) < els@.len(),
                                    named_ids(pdu_to_can_id@) == so_far + mapped_pdus(
                                        els@,
                                        indices(list@).take(k as int),
                                        can_id,
                                    ),
                                decreases list@.len() - k,
                            {
                                proof {
                                    let taken = indices(list@).take(k + 1);
                                    assert(taken.drop_last() =~= indices(list@).take(k as int));
                                    assert(taken.last() == list@[k as int] as int);
                                }
                                if let Some(pdu_path) = doc.get_sub_element_text(list[k], "PDU-REF") {
                                    let pdu_name = last_segment(pdu_path.as_str());
                                    if pdu_name.as_str().unicode_len() > 0 {
                                        let ghost before = pdu_to_can_id@;
                                        pdu_to_can_id.push(NamedId { name: pdu_name, id: can_id });
                                        assert(named_ids(pdu_to_can_id@) =~= named_ids(before).push(
                                            (pdu_name@, can_id),
                                        ));
                                    }
                                }
                                k += 1;
                            }
                            assert(indices(list@).take(k as int) =~= indices(list@));
                        }
                    }
                }
            }
            assert(named_ids(pdu_to_can_id@) =~= so_far + added);
            i += 1;
        }
        pdu_to_can_id
    }

    /// Reads the conversion that a scale describes.
    pub fn parse_scale(&self, scale: usize) -> (r: Conversion)
        requires
            scale < self.elements().len(),
        ensures
            r == scale_conversion(self.elements(), scale as int),
    {
        let doc = self.doc;
        let min = read_scalar(doc.get_sub_element_text(scale, "LOWER-LIMIT"));
        let max = read_scalar(doc.get_sub_element_text(scale, "UPPER-LIMIT"));
        let mut coefficients: Option<(Option<Scalar>, Option<Scalar>)> = None;
        if let Some(rational) = doc.find_sub_element(scale, "COMPU-RATIONAL-COEFFS") {
            if let Some(numerator) = doc.find_sub_element(rational, "COMPU-NUMERATOR") {
                let v_elems = doc.find_all_sub_elements(numerator, "V");
                if v_elems.len() >= 2 {
                    assert(indices(v_elems@)[0] == v_elems@[0] as int);
                    assert(indices(v_elems@)[1] == v_elems@[1] as int);
                    coefficients = Some(
                        (
                            read_scalar(doc.elements[v_elems[0]].text.as_ref()),
                            read_scalar(doc.elements[v_elems[1]].text.as_ref()),
                        ),
                    );
                }
            }
        }
        let constant = match doc.find_sub_element(scale, "COMPU-CONST") {
            Some(compu_const) => read_scalar(doc.get_sub_element_text(compu_const, "VT")),
            None => None,
        };
        Conversion::of_parts(min, max, coefficients, constant)
    }

    /// Finds the element that a reference element points to.
    pub fn follow_reference(&self, reference: usize) -> (r: Option<usize>)
        requires
            reference < self.elements().len(),
        ensures
            r.is_some() == referenced(self.elements(), reference as int).is_some(),
            r matches Some(j) ==> Some(j as int) == referenced(self.elements(), reference as int)
                && j < self.elements().len(),
    {
        match &self.doc.elements[reference].text {
            Some(t) => {
                let name = last_segment(t.as_str());
                self.doc.find_element_by_short_name(name.as_str())
            },
            None => None,
        }
    }

    /// Finds the scale of the computation method of a system signal and
    /// reads its conversion.
    pub fn parse_compu_method(&self, system_signal: usize) -> (r: Option<Conversion>)
        requires
            system_signal < self.elements().len(),
        ensures
            r == match compu_scale(self.elements(), system_signal as int) {
                Some(scale) => Some(scale_conversion(self.elements(), scale)),
                None => None,
            },
    {
        let doc = self.doc;
        let compu_method = match doc.find_sub_element(system_signal, "COMPU-METHOD") {
            Some(inline) => Some(inline),
            None => match doc.find_sub_element(system_signal, "COMPU-METHOD-REF") {
                Some(compu_ref) => self.follow_reference(compu_ref),
                None => None,
            },
        };
        if let Some(compu) = compu_method {
            if let Some(internal_to_phys) = doc.find_sub_element(compu, "COMPU-INTERNAL-TO-PHYS") {
                if let Some(compu_scales) = doc.find_sub_element(internal_to_phys, "COMPU-SCALES") {
                    if let Some(scale) = doc.find_sub_element(compu_scales, "COMPU-SCALE") {
                        return Some(self.parse_scale(scale));
                    }
                }
            }
        }
        None
    }

    /// Reads what the system signal behind a signal says of it: factor,
    /// offset, unit and limits.
    pub fn parse_system_signal(&self, i_signal: usize, bit_length: u16) -> (r: SignalProperties)
        requires
            i_signal < self.elements().len(),
        ensures
            r@ == signal_properties(self.elements(), i_signal as int, bit_length),
    {
        let doc = self.doc;
        let mut unit: Option<String> = None;
        let mut conversion: Option<Conversion> = None;
        if let Some(sys_signal_ref) = doc.find_sub_element(i_signal, "SYSTEM-SIGNAL-REF") {
            if let Some(system_signal) = self.follow_reference(sys_signal_ref) {
                if let Some(unit_path) = doc.get_sub_element_text(system_signal, "UNIT-REF") {
                    let unit_name = last_segment(unit_path.as_str());
                    if unit_name.as_str().unicode_len() > 0 {
                        unit = Some(unit_name);
                    }
                }
                conversion = self.parse_compu_method(system_signal);
            }
        }
        SignalProperties::with_conversion(bit_length, unit, conversion)
    }

    /// Reads the signal that a signal mapping defines.
    pub fn parse_signal_mapping(&self, mapping: usize, gate: Option<(&String, u64)>) -> (r: Option<
        SignalDefinition,
    >)
        requires
            mapping < self.elements().len(),
        ensures
            option_signal_definition_view(r) == signal_mapping(
                self.elements(),
                mapping as int,
                gate_of(gate),
            ),
    {
        let doc = self.doc;
        let signal_path = match doc.get_sub_element_text(mapping, "I-SIGNAL-REF") {
            Some(t) => t,
            None => {
                return None;
            },
        };
        let signal_name = last_segment(signal_path.as_str());
        let start_position = read_number_or(
            doc.get_sub_element_text(mapping, "START-POSITION"),
            0xFFFF,
            0,
        ) as u16;
        let byte_order = match doc.get_sub_element_text(mapping, "PACKING-BYTE-ORDER") {
            Some(t) => if text_contains(t.as_str(), "MOST-SIGNIFICANT-BYTE-FIRST") {
                ByteOrder::BigEndian
            } else {
                ByteOrder::LittleEndian
            },
            None => ByteOrder::LittleEndian,
        };
        let (length, properties) = match doc.find_element_by_short_name(signal_name.as_str()) {
            Some(i_signal) => {
                let len = read_number_or(doc.get_sub_element_text(i_signal, "LENGTH"), 0xFFFF, 8) as u16;
                (len, self.parse_system_signal(i_signal, len))
            },
            None => (
                8u16,
                SignalProperties {
                    factor: Scalar::Whole(1),
                    offset: Scalar::Whole(0),
                    unit: None,
                    min: Scalar::Whole(0),
                    max: largest_raw(8),
                },
            ),
        };
        let multiplexer_info = match gate {
            Some((name, value)) => {
                let mut values: Vec<u64> = Vec::new();
                values.push(value);
                assert(values@ =~= seq![value]);
                Some(MultiplexerInfo { multiplexer_signal: name.clone(), multiplexer_values: values })
            },
            None => None,
        };
        Some(
            SignalDefinition {
                name: signal_name,
                start_bit: start_position,
                length,
                byte_order,
                value_type: ValueType::Unsigned,
                factor: properties.factor,
                offset: properties.offset,
                min: properties.min,
                max: properties.max,
                unit: properties.unit,
                value_table: None,
                multiplexer_info,
            },
        )
    }

    /// Reads the signals of a PDU and adds them to a list.
    pub fn parse_signal_mappings(
        &self,
        pdu_element: usize,
        gate: Option<(&String, u64)>,
        signals: &mut Vec<SignalDefinition>,
    )
        requires
            pdu_element < self.elements().len(),
        ensures
            signal_definition_views(final(signals)@) == signal_definition_views(old(signals)@)
                + pdu_signals(self.elements(), pdu_element as int, gate_of(gate)),
    {
        let doc = self.doc;
        let ghost start = signal_definition_views(signals@);
        if let Some(mappings) = doc.find_sub_element(pdu_element, "I-SIGNAL-TO-PDU-MAPPINGS") {
            let list = doc.find_all_sub_elements(mappings, "I-SIGNAL-TO-I-PDU-MAPPING");
            let mut k: usize = 0;
            proof {
                assert(indices(list@).take(0) =~= Seq::<int>::empty());
                assert(signal_definition_views(signals@) =~= start + Seq::<
                    SignalDefinitionView,
                >::empty());
            }
            while k < list.len()
                invariant
                    k <= list@.len(),
                    forall|n: int|
                        0 <= n < list@.len() ==> (#[trigger] list@[n]) < self.elements().len(),
                    signal_definition_views(signals@) == start + mapped_signals(
                        self.elements(),
                        indices(list@).take(k as int),
                        gate_of(gate),
                    ),
                decreases list@.len() - k,
            {
                proof {
                    let taken = indices(list@).take(k + 1);
                    assert(taken.drop_last() =~= indices(list@).take(k as int));
                    assert(taken.last() == list@[k as int] as int);
                }
                if let Some(signal) = self.parse_signal_mapping(list[k], gate) {
                    let ghost before = signals@;
                    signals.push(signal);
                    assert(signal_definition_views(signals@) =~= signal_definition_views(
                        before,
                    ).push(signal@));
                }
                k += 1;
            }
            assert(indices(list@).take(k as int) =~= indices(list@));
        } else {
            assert(signal_definition_views(signals@) =~= start + Seq::<
                SignalDefinitionView,
            >::empty());
        }
    }

    /// Reads the signals of the PDUs that a list of references points to
    /// and adds them to a list.
    pub fn parse_referenced_signals(
        &self,
        references: &Vec<usize>,
        gate: Option<(&String, u64)>,
        signals: &mut Vec<SignalDefinition>,
    )
        requires
            forall|n: int|
                0 <= n < references@.len() ==> (#[trigger] references@[n]) < self.elements().len(),
        ensures
            signal_definition_views(final(signals)@) == signal_definition_views(old(signals)@)
                + referenced_signals(self.elements(), indices(references@), gate_of(gate)),
    {
        let ghost start = signal_definition_views(signals@);
        let mut k: usize = 0;
        proof {
            assert(indices(references@).take(0) =~= Seq::<int>::empty());
            assert(signal_definition_views(signals@) =~= start + Seq::<
                SignalDefinitionView,
            >::empty());
        }
        while k < references.len()
            invariant
                k <= references@.len(),
                forall|n: int|
                    0 <= n < references@.len() ==> (#[trigger] references@[n])
                        < self.elements().len(),
                signal_definition_views(signals@) == start + referenced_signals(
                    self.elements(),
                    indices(references@).take(k as int),
                    gate_of(gate),
                ),
            decreases references@.len() - k,
        {
            proof {
                let taken = indices(references@).take(k + 1);
                assert(taken.drop_last() =~= indices(references@).take(k as int));
                assert(taken.last() == references@[k as int] as int);
            }
            let ghost so_far = referenced_signals(
                self.elements(),
                indices(references@).take(k as int),
                gate_of(gate),
            );
            if let Some(pdu) = self.follow_reference(references[k]) {
                self.parse_signal_mappings(pdu, gate, signals);
                assert(signal_definition_views(signals@) =~= start + (so_far + pdu_signals(
                    self.elements(),
                    pdu as int,
                    gate_of(gate),
                )));
            }
            k += 1;
        }
        assert(indices(references@).take(k as int) =~= indices(references@));
    }

    /// Reads the message that a signal PDU defines.
    pub fn parse_i_signal_i_pdu(&self, element: usize) -> (r: Option<MessageDefinition>)
        requires
            element < self.elements().len(),
        ensures
            option_message_view(r) == signal_pdu_message(
                self.elements(),
                self.ids(),
                self.source_name(),
                element as int,
            ),
    {
        let doc = self.doc;
        let name = match &doc.elements[element].name {
            Some(n) => n.clone(),
            None => {
                return None;
            },
        };
        let length = read_number_or(doc.get_sub_element_text(element, "LENGTH"), usize::MAX as u64, 8) as usize;
        let can_id = match lookup_id(&self.pdu_to_can_id, name.as_str()) {
            Some(id) => id,
            None => {
                return None;
            },
        };
        let mut signals: Vec<SignalDefinition> = Vec::new();
        assert(signal_definition_views(signals@) =~= Seq::<SignalDefinitionView>::empty());
        self.parse_signal_mappings(element, None, &mut signals);
        assert(signal_definition_views(signals@) =~= pdu_signals(
            self.elements(),
            element as int,
            None,
        ));
        if signals.len() == 0 {
            return None;
        }
        Some(
            MessageDefinition {
                id: can_id,
                name,
                size: length,
                sender: None,
                signals,
                is_multiplexed: false,
                multiplexer_signal: None,
                source: self.source.clone(),
            },
        )
    }

    /// Reads the message that a multiplexed PDU defines: the selector, the
    /// signals of the static parts, and the signals of each alternative
    /// gated by the alternative's selector code.
    pub fn parse_multiplexed_i_pdu(&self, element: usize) -> (r: Option<MessageDefinition>)
        requires
            element < self.elements().len(),
        ensures
            option_message_view(r) == multiplexed_pdu_message(
                self.elements(),
                self.ids(),
                self.source_name(),
                element as int,
            ),
    {
        let doc = self.doc;
        let name = match &doc.elements[element].name {
            Some(n) => n.clone(),
            None => {
                return None;
            },
        };
        let length = read_number_or(doc.get_sub_element_text(element, "LENGTH"), usize::MAX as u64, 10) as usize;
        let can_id = match lookup_id(&self.pdu_to_can_id, name.as_str()) {
            Some(id) => id,
            None => {
                return None;
            },
        };
        let selector_start = read_number_or(
            doc.get_sub_element_text(element, "SELECTOR-FIELD-START-POSITION"),
            0xFFFF,
            0,
        ) as u16;
        let selector_length = read_number_or(
            doc.get_sub_element_text(element, "SELECTOR-FIELD-LENGTH"),
            0xFFFF,
            8,
        ) as u16;
        let multiplexer_signal_name = crate::text::join(name.as_str(), "_selector");
        let mut signals: Vec<SignalDefinition> = Vec::new();
        let selector = SignalDefinition {
            name: multiplexer_signal_name.clone(),
            start_bit: selector_start,
            length: selector_length,
            byte_order: ByteOrder::LittleEndian,
            value_type: ValueType::Unsigned,
            factor: Scalar::Whole(1),
            offset: Scalar::Whole(0),
            min: Scalar::Whole(0),
            max: largest_raw(selector_length),
            unit: None,
            value_table: None,
            multiplexer_info: None,
        };
        signals.push(selector);
        let ghost first = seq![selector_signal(self.elements(), element as int, name@)];
        assert(signal_definition_views(signals@) =~= first);
        let ghost fixed = match sub_element(self.elements(), element as int, "STATIC-PARTS"@) {
            Some(p) => referenced_signals(
                self.elements(),
                sub_elements(self.elements(), p, "I-PDU-REF"@),
                None,
            ),
            None => Seq::empty(),
        };
        if let Some(static_part) = doc.find_sub_element(element, "STATIC-PARTS") {
            let references = doc.find_all_sub_elements(static_part, "I-PDU-REF");
            self.parse_referenced_signals(&references, None, &mut signals);
        }
        assert(signal_definition_views(signals@) =~= first + fixed);
        let ghost gated = match sub_element(self.elements(), element as int, "DYNAMIC-PARTS"@) {
            Some(p) => alternative_signals(
                self.elements(),
                sub_elements(self.elements(), p, "DYNAMIC-PART-ALTERNATIVE"@),
                name@ + "_selector"@,
            ),
            None => Seq::empty(),
        };
        if let Some(dynamic_parts) = doc.find_sub_element(element, "DYNAMIC-PARTS") {
            let alternatives = doc.find_all_sub_elements(dynamic_parts, "DYNAMIC-PART-ALTERNATIVE");
            let mut k: usize = 0;
            proof {
                assert(indices(alternatives@).take(0) =~= Seq::<int>::empty());
                assert(signal_definition_views(signals@) =~= first + fixed + Seq::<
                    SignalDefinitionView,
                >::empty());
            }
            while k < alternatives.len()
                invariant
                    k <= alternatives@.len(),
                    doc == self.doc,
                    multiplexer_signal_name@ == name@ + "_selector"@,
                    forall|n: int|
                        0 <= n < alternatives@.len() ==> (#[trigger] alternatives@[n])
                            < self.elements().len(),
                    signal_definition_views(signals@) == first + fixed + alternative_signals(
                        self.elements(),
                        indices(alternatives@).take(k as int),
                        name@ + "_selector"@,
                    ),
                decreases alternatives@.len() - k,
            {
                proof {
                    let taken = indices(alternatives@).take(k + 1);
                    assert(taken.drop_last() =~= indices(alternatives@).take(k as int));
                    assert(taken.last() == alternatives@[k as int] as int);
                }
                let ghost so_far = alternative_signals(
                    self.elements(),
                    indices(alternatives@).take(k as int),
                    name@ + "_selector"@,
                );
                let alt = alternatives[k];
                let selector_value = read_number_or(
                    doc.get_sub_element_text(alt, "SELECTOR-FIELD-CODE"),
                    u64::MAX,
                    0,
                );
                let references = doc.find_all_sub_elements(alt, "I-PDU-REF");
                let ghost added = referenced_signals(
                    self.elements(),
                    indices(references@),
                    Some((name@ + "_selector"@, selector_value)),
                );
                self.parse_referenced_signals(
                    &references,
                    Some((&multiplexer_signal_name, selector_value)),
                    &mut signals,
                );
                assert(signal_definition_views(signals@) =~= first + fixed + (so_far + added));
                k += 1;
            }
            assert(indices(alternatives@).take(k as int) =~= indices(alternatives@));
        } else {
            assert(signal_definition_views(signals@) =~= first + fixed + gated);
        }
        Some(
            MessageDefinition {
                id: can_id,
                name,
                size: length,
                sender: None,
                signals,
                is_multiplexed: true,
                multiplexer_signal: Some(multiplexer_signal_name),
                source: self.source.clone(),
            },
        )
    }

    /// Gives a contained PDU its identifier: the low 16 bits of the default
    /// hash of its name.
    pub fn generate_pdu_id(name: &str) -> (r: u32)
        ensures
            r == pdu_id_of(vstd::utf8::encode_utf8(name@)),
    {
        let mut hasher = std::collections::hash_map::DefaultHasher::new();
        let bytes = name.as_bytes();
        std::hash::Hasher::write(&mut hasher, bytes);
        let end: [u8; 1] = [0xff];
        let last = end.as_slice();
        assert(last@ =~= seq![0xffu8]);
        std::hash::Hasher::write(&mut hasher, last);
        assert(hasher@ =~= seq![vstd::utf8::encode_utf8(name@), seq![0xffu8]]);
        let h = std::hash::Hasher::finish(&hasher);
        assert(h & 0xFFFF <= 0xFFFF) by (bit_vector);
        (h & 0xFFFF) as u32
    }

    /// Reads the layout entries of a container PDU: the PDUs behind its
    /// triggering references, laid out one after the other from position 0.
    /// The first PDU that would reach beyond the container's length ends
    /// the list and is left out, so that every entry ends within the
    /// container.
    pub fn parse_contained_pdus(&self, container_element: usize, container_length: usize) -> (r: Vec<
        ContainedPduInfo,
    >)
        requires
            container_element < self.elements().len(),
        ensures
            pdu_info_views(r@) == contained_pdus(
                self.elements(),
                container_element as int,
                container_length,
            ),
            laid_out_in_sequence(pdu_info_views(r@), 0, container_length),
    {
        let doc = self.doc;
        let mut contained: Vec<ContainedPduInfo> = Vec::new();
        let mut current_position: usize = 0;
        assert(pdu_info_views(contained@) =~= Seq::<ContainedPduInfoView>::empty());
        if let Some(refs_element) = doc.find_sub_element(
            container_element,
            "CONTAINED-PDU-TRIGGERING-REFS",
        ) {
            let references = doc.find_all_sub_elements(refs_element, "CONTAINED-PDU-TRIGGERING-REF");
            let ghost all = contained_from(
                self.elements(),
                indices(references@),
                container_length,
                0,
                0,
            );
            let mut k: usize = 0;
            while k < references.len()
                invariant_except_break
                    all == pdu_info_views(contained@) + contained_from(
                        self.elements(),
                        indices(references@),
                        container_length,
                        k as int,
                        current_position,
                    ),
                invariant
                    k <= references@.len(),
                    doc == self.doc,
                    forall|n: int|
                        0 <= n < references@.len() ==> (#[trigger] references@[n])
                            < self.elements().len(),
                ensures
                    all == pdu_info_views(contained@),
                decreases references@.len() - k,
            {
                assert(indices(references@)[k as int] == references@[k as int] as int);
                let path = match &doc.elements[references[k]].text {
                    Some(trigger_path) => match doc.find_element_by_path(trigger_path.as_str()) {
                        Some(triggering) => doc.get_sub_element_text(triggering, "I-PDU-REF"),
                        None => None,
                    },
                    None => None,
                };
                if let Some(ipdu_path) = path {
                    let ipdu_name = last_segment(ipdu_path.as_str());
                    let pdu_size = match doc.find_element_by_path(ipdu_path.as_str()) {
                        Some(ipdu) => read_number_or(
                            doc.get_sub_element_text(ipdu, "LENGTH"),
                            usize::MAX as u64,
                            8,
                        ) as usize,
                        None => 8,
                    };
                    if pdu_size > container_length || current_position > container_length
                        - pdu_size {
                        assert(all =~= pdu_info_views(contained@));
                        break;
                    }
                    let pdu_id = Self::generate_pdu_id(ipdu_name.as_str());
                    let entry = ContainedPduInfo {
                        pdu_id,
                        name: ipdu_name,
                        position: current_position,
                        size: pdu_size,
                    };
                    let ghost before = contained@;
                    contained.push(entry);
                    assert(pdu_info_views(contained@) =~= pdu_info_views(before).push(entry@));
                    current_position = current_position + pdu_size;
                    assert(all =~= pdu_info_views(contained@) + contained_from(
                        self.elements(),
                        indices(references@),
                        container_length,
                        k + 1,
                        current_position,
                    ));
                }
                k += 1;
            }
            proof {
                if k >= references.len() {
                    assert(all =~= pdu_info_views(contained@));
                }
                lemma_contained_layout(
                    self.elements(),
                    indices(references@),
                    container_length,
                    0,
                    0,
                );
            }
        }
        contained
    }

    /// Reads the container that a container PDU defines.
    pub fn parse_container_i_pdu(&self, element: usize) -> (r: Option<ContainerDefinition>)
        requires
            element < self.elements().len(),
        ensures
            option_container_view(r) == container_pdu_definition(
                self.elements(),
                self.ids(),
                self.source_name(),
                element as int,
            ),
    {
        let doc = self.doc;
        let name = match &doc.elements[element].name {
            Some(n) => n.clone(),
            None => {
                return None;
            },
        };
        let length = read_number_or(doc.get_sub_element_text(element, "LENGTH"), usize::MAX as u64, 64) as usize;
        let can_id = match lookup_id(&self.pdu_to_can_id, name.as_str()) {
            Some(id) => id,
            None => {
                return None;
            },
        };
        let (short, long) = match doc.get_sub_element_text(element, "HEADER-TYPE") {
            Some(t) => (
                text_contains(t.as_str(), "SHORT-HEADER"),
                text_contains(t.as_str(), "LONG-HEADER"),
            ),
            None => (text_contains("NONE", "SHORT-HEADER"), text_contains("NONE", "LONG-HEADER")),
        };
        let contained = self.parse_contained_pdus(element, length);
        let (container_type, layout) = if short {
            (ContainerType::Dynamic, ContainerLayout::Dynamic { header_size: 4, pdus: contained })
        } else if long {
            (ContainerType::Dynamic, ContainerLayout::Dynamic { header_size: 8, pdus: contained })
        } else {
            (ContainerType::Static, ContainerLayout::Static { pdus: contained })
        };
        Some(
            ContainerDefinition {
                id: can_id,
                name,
                container_type,
                layout,
                source: self.source.clone(),
            },
        )
    }

    /// Reads the messages and containers of the description, each kind in
    /// document order.
    pub fn parse(&self) -> (r: (Vec<MessageDefinition>, Vec<ContainerDefinition>))
        ensures
            message_definition_views(r.0@) == document_messages(
                self.elements(),
                self.ids(),
                self.source_name(),
                self.elements().len() as int,
            ),
            container_definition_views(r.1@) == document_containers(
                self.elements(),
                self.ids(),
                self.source_name(),
                self.elements().len() as int,
            ),
    {
        let doc = self.doc;
        let mut messages: Vec<MessageDefinition> = Vec::new();
        let mut containers: Vec<ContainerDefinition> = Vec::new();
        let mut i: usize = 0;
        proof {
            assert(message_definition_views(messages@) =~= Seq::<MessageDefinitionView>::empty());
            assert(container_definition_views(containers@) =~= Seq::<
                ContainerDefinitionView,
            >::empty());
        }
        while i < doc.elements.len()
            invariant
                i <= self.elements().len(),
                doc == self.doc,
                message_definition_views(messages@) == document_messages(
                    self.elements(),
                    self.ids(),
                    self.source_name(),
                    i as int,
                ),
                container_definition_views(containers@) == document_containers(
                    self.elements(),
                    self.ids(),
                    self.source_name(),
                    i as int,
                ),
            decreases self.elements().len() - i,
        {
            let tag = doc.elements[i].tag.as_str();
            proof {
                reveal_strlit("I-SIGNAL-I-PDU");
                reveal_strlit("MULTIPLEXED-I-PDU");
                reveal_strlit("CONTAINER-I-PDU");
                assert("I-SIGNAL-I-PDU"@.len() == 14);
                assert("MULTIPLEXED-I-PDU"@.len() == 17);
                assert("CONTAINER-I-PDU"@.len() == 15);
            }
            if same_text(tag, "I-SIGNAL-I-PDU") {
                if let Some(msg) = self.parse_i_signal_i_pdu(i) {
                    let ghost before = messages@;
                    messages.push(msg);
                    assert(message_definition_views(messages@) =~= message_definition_views(
                        before,
                    ).push(msg@));
                }
            } else if same_text(tag, "MULTIPLEXED-I-PDU") {
                if let Some(msg) = self.parse_multiplexed_i_pdu(i) {
                    let ghost before = messages@;
                    messages.push(msg);
                    assert(message_definition_views(messages@) =~= message_definition_views(
                        before,
                    ).push(msg@));
                }
            } else if same_text(tag, "CONTAINER-I-PDU") {
                if let Some(container) = self.parse_container_i_pdu(i) {
                    let ghost before = containers@;
                    containers.push(container);
                    assert(container_definition_views(containers@)
                        =~= container_definition_views(before).push(container@));
                }
            }
            i += 1;
        }
        (messages, containers)
    }
}

/// The selector and value that a borrowed name and a value stand for.
pub open spec fn gate_of(gate: Option<(&String, u64)>) -> Option<(Seq<char>, u64)> {
    match gate {
        Some((name, value)) => Some((name@, value)),
        None => None,
    }
}

/// Reads the messages and containers of a document, each kind in document
/// order, for the name of the file the document came from.
pub fn parse_document(doc: &ArxmlDocument, source: &str) -> (r: (
    Vec<MessageDefinition>,
    Vec<ContainerDefinition>,
))
    ensures
        message_definition_views(r.0@) == document_messages(
            doc.elements@,
            document_ids(doc.elements@),
            source@,
            doc.elements@.len() as int,
        ),
        container_definition_views(r.1@) == document_containers(
            doc.elements@,
            document_ids(doc.elements@),
            source@,
            doc.elements@.len() as int,
        ),
{
    let parser = ArxmlParser::new(doc, String::from_str(source));
    parser.parse()
}

/// Whether messages and containers are what is read from the elements of
/// a document in document order for the name of a file.
pub open spec fn read_from(
    els: Seq<ArxmlElement>,
    source: Seq<char>,
    messages: Seq<MessageDefinition>,
    containers: Seq<ContainerDefinition>,
) -> bool {
    &&& in_document_order(els)
    &&& message_definition_views(messages) == document_messages(
        els,
        document_ids(els),
        source,
        els.len() as int,
    )
    &&& container_definition_views(containers) == document_containers(
        els,
        document_ids(els),
        source,
        els.len() as int,
    )
}

/// Reads the messages and containers of a description file held in memory.
///
/// The file is loaded with the crate `autosar-data`, and it is that crate
/// which accepts or refuses it; a file that is refused gives
/// `ArxmlParseError`. A file that is accepted gives what [`parse_document`]
/// reads from the elements that the crate loaded from it, a document in
/// document order.
pub fn parse_arxml_file(content: &[u8], source: &str) -> (r: Result<
    (Vec<MessageDefinition>, Vec<ContainerDefinition>),
    DecoderError,
>)
    ensures
        r.is_ok() == arxml_accepted(content@, source@),
        r matches Err(e) ==> is_arxml_refusal(e),
        r matches Ok(found) ==> read_from(
            arxml_elements(content@, source@),
            source@,
            found.0@,
            found.1@,
        ),
{
    match crate::signals::autosar::load_document(content, source) {
        Ok(doc) => Ok(parse_document(&doc, source)),
        Err(e) => Err(e),
    }
}

} // verus!
