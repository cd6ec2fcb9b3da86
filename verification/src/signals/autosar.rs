//! The reading of description files with the crate `autosar-data`.
//!
//! The crate parses the file and checks it against the AUTOSAR schema; what
//! this library reads of each element is gathered here into a document of
//! its own. The elements that the crate loads from a file bear a name here,
//! and the document holds the elements that it names.

use vstd::prelude::*;
use crate::signals::arxml::{in_document_order, ArxmlDocument, ArxmlElement};
use crate::types::DecoderError;

verus! {

/// The model of the crate `autosar-data`: the tree of elements of the files
/// loaded into it.
#[verifier::external_type_specification]
#[verifier::external_body]
pub struct ExAutosarModel(autosar_data::AutosarModel);

/// An element of a model of the crate `autosar-data`.
#[verifier::external_type_specification]
#[verifier::external_body]
pub struct ExElement(autosar_data::Element);

/// The error type of the crate `autosar-data`.
#[verifier::external_type_specification]
#[verifier::external_body]
pub struct ExAutosarDataError(autosar_data::AutosarDataError);

/// Whether the crate `autosar-data` accepts a description under a file
/// name: whether `AutosarModel::load_buffer`, in its lenient mode, loads it
/// into a model that holds nothing yet.
pub uninterp spec fn arxml_accepted(content: Seq<u8>, name: Seq<char>) -> bool;

/// The elements that the crate `autosar-data` loads from a description that
/// it accepts under a file name: what [`model_contents`] is of the model
/// that `AutosarModel::load_buffer`, in its lenient mode, has filled.
pub uninterp spec fn arxml_elements(content: Seq<u8>, name: Seq<char>) -> Seq<ArxmlElement>;

/// The elements that a model holds, in document order as
/// `AutosarModel::elements_dfs` walks them, each as [`element_record`]
/// gives it. The model is taken as it is after loading; this library never
/// changes one.
pub uninterp spec fn model_contents(model: autosar_data::AutosarModel) -> Seq<ArxmlElement>;

/// What this library reads of an element of a model: its depth below the
/// root of the model, its tag (`Element::element_name` as text), its short
/// name (`Element::item_name`), its path (`Element::path`, none where the
/// crate gives an error) and its character content as text
/// (`Element::character_data`).
pub uninterp spec fn element_record(element: autosar_data::Element) -> ArxmlElement;

/// Loads a description from memory into a model that holds nothing else:
/// `AutosarModel::load_buffer`, in its lenient mode, on a model fresh from
/// `AutosarModel::new`. Whether the description is accepted, and what the
/// model then holds, depend on its bytes and its name alone. The file
/// handle and the warnings that the crate hands back are dropped.
#[verifier::external_body]
fn load_model(content: &[u8], name: &str) -> (r: Result<
    autosar_data::AutosarModel,
    autosar_data::AutosarDataError,
>)
    ensures
        r.is_ok() == arxml_accepted(content@, name@),
        r matches Ok(model) ==> model_contents(model) == arxml_elements(content@, name@),
{
    let model = autosar_data::AutosarModel::new();
    match model.load_buffer(content, name, false) {
        Ok(_) => Ok(model),
        Err(e) => Err(e),
    }
}

/// The message of an error of the crate, its `Display` form.
#[verifier::external_body]
fn error_text(error: &autosar_data::AutosarDataError) -> (r: String) {
    error.to_string()
}

/// Whether depths are those of a walk through a tree that lists each
/// parent before its children: the first depth is 0, every further one is
/// at least 1 and at most one more than the depth before it.
pub open spec fn depths_of_a_walk(depths: Seq<usize>) -> bool {
    &&& depths.len() >= 1
    &&& depths[0] == 0
    &&& forall|i: int| 1 <= i < depths.len() ==> 1 <= (#[trigger] depths[i]) <= depths[i - 1] + 1
}

/// The depths of a list of elements with their depths.
pub open spec fn listed_depths(found: Seq<(usize, autosar_data::Element)>) -> Seq<usize> {
    found.map_values(|e: (usize, autosar_data::Element)| e.0)
}

/// Whether a list of elements with their depths is what a model holds: as
/// many elements as the model has, each at its depth and with the record
/// that the model has at its place.
pub open spec fn lists_contents(
    found: Seq<(usize, autosar_data::Element)>,
    contents: Seq<ArxmlElement>,
) -> bool {
    &&& found.len() == contents.len()
    &&& forall|i: int|
        0 <= i < found.len() ==> (#[trigger] found[i]).0 == contents[i].depth && element_record(
            found[i].1,
        ) == contents[i]
}

/// The elements of a model in document order, each with its depth, as
/// `AutosarModel::elements_dfs` gives them: the root of the model first, at
/// depth 0, then in each step an element that lies below the root and at
/// most one level deeper than the one before it.
#[verifier::external_body]
fn model_elements(model: &autosar_data::AutosarModel) -> (r: Vec<(usize, autosar_data::Element)>)
    ensures
        lists_contents(r@, model_contents(*model)),
        depths_of_a_walk(listed_depths(r@)),
{
    model.elements_dfs().collect()
}

/// The tag of an element, `Element::element_name` as text.
#[verifier::external_body]
fn element_tag(element: &autosar_data::Element) -> (r: String)
    ensures
        r == element_record(*element).tag,
{
    element.element_name().to_string()
}

/// The short name of an element, `Element::item_name`.
#[verifier::external_body]
fn element_item_name(element: &autosar_data::Element) -> (r: Option<String>)
    ensures
        r == element_record(*element).name,
{
    element.item_name()
}

/// The path of an element, `Element::path`; nothing where the element has
/// none.
#[verifier::external_body]
fn element_path(element: &autosar_data::Element) -> (r: Option<String>)
    ensures
        r == element_record(*element).path,
{
    element.path().ok()
}

/// The character content of an element as text, `Element::character_data`.
#[verifier::external_body]
fn element_text(element: &autosar_data::Element) -> (r: Option<String>)
    ensures
        r == element_record(*element).text,
{
    match element.character_data() {
        Some(data) => Some(data.to_string()),
        None => None,
    }
}

/// Gathers the elements of a model into a document: one element of the
/// document for each element of the model, in the order and at the depth at
/// which the walk through the model gives it, so that the document is in
/// document order.
fn read_document(model: &autosar_data::AutosarModel) -> (r: ArxmlDocument)
    ensures
        r.elements@ == model_contents(*model),
        in_document_order(r.elements@),
{
    let found = model_elements(model);
    let mut elements: Vec<ArxmlElement> = Vec::new();
    let mut i: usize = 0;
    while i < found.len()
        invariant
            i <= found@.len(),
            lists_contents(found@, model_contents(*model)),
            elements@.len() == i,
            forall|k: int| 0 <= k < i ==> #[trigger] elements@[k] == model_contents(*model)[k],
        decreases found@.len() - i,
    {
        let element = &found[i].1;
        elements.push(
            ArxmlElement {
                depth: found[i].0,
                tag: element_tag(element),
                name: element_item_name(element),
                path: element_path(element),
                text: element_text(element),
            },
        );
        i += 1;
    }
    assert(elements@ =~= model_contents(*model));
    proof {
        let depths = listed_depths(found@);
        assert forall|k: int| 0 <= k < elements@.len() implies (#[trigger] elements@[k]).depth
            == depths[k] by {
            assert(found@[k].0 == model_contents(*model)[k].depth);
        }
    }
    ArxmlDocument { elements }
}

/// Whether an error is what a description that the crate `autosar-data`
/// refuses gives: `ArxmlParseError` with a message that begins with
/// `Failed to load ARXML: ` and goes on with the crate's message.
pub open spec fn is_arxml_refusal(e: DecoderError) -> bool {
    e matches DecoderError::ArxmlParseError(text) && "Failed to load ARXML: "@.is_prefix_of(text@)
}

/// Reads a description from memory into a document.
///
/// It is the crate `autosar-data` that accepts or refuses the description.
/// One that is refused gives `ArxmlParseError` with the crate's message;
/// one that is accepted gives the elements that the crate loaded from it,
/// a document in document order.
pub fn load_document(content: &[u8], source: &str) -> (r: Result<ArxmlDocument, DecoderError>)
    ensures
        r.is_ok() == arxml_accepted(content@, source@),
        r matches Err(e) ==> is_arxml_refusal(e),
        r matches Ok(doc) ==> doc.elements@ == arxml_elements(content@, source@)
            && in_document_order(doc.elements@),
{
    match load_model(content, source) {
        Ok(model) => Ok(read_document(&model)),
        Err(e) => {
            let text = crate::text::join("Failed to load ARXML: ", error_text(&e).as_str());
            assert(text@.subrange(0, "Failed to load ARXML: "@.len() as int)
                =~= "Failed to load ARXML: "@);
            Err(DecoderError::ArxmlParseError(text))
        },
    }
}

} // verus!
