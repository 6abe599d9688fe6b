//! The markup event vocabulary that the aggregation consumes, and the
//! trusted boundary to the external tokenizer that produces it.

use vstd::prelude::*;
use xml::reader::XmlEvent as RawXmlEvent;

verus! {

/// One attribute of a markup element, reduced to its local name and value.
pub struct Attribute {
    pub name: String,
    pub value: String,
}

/// One event of the markup tokenizer, reduced to what the day aggregation
/// reads: element boundaries with local names and attributes, character
/// data, document boundaries, and two catch-all kinds for tokenizer errors
/// and for event kinds that carry no tracked data (comments, whitespace,
/// processing instructions and the like).
pub enum XmlEvent {
    StartDocument,
    StartElement { name: String, attributes: Vec<Attribute> },
    Characters(String),
    EndElement,
    EndDocument,
    Malformed,
    Other,
}

/// The event stream that tokenizing a byte sequence yields. The tokenizer's
/// output is a function of the bytes alone; its full behaviour (the XML
/// grammar) is not restated here.
pub uninterp spec fn events_of(bytes: Seq<u8>) -> Seq<XmlEvent>;

/// Relies on xml::EventReader: pull-parses an XML byte stream into a
/// sequence of events, which depend on the bytes alone. Each event kind is
/// carried over one to one; kinds that the aggregation ignores are folded
/// into `Other`, and a tokenizer error becomes `Malformed`.
#[verifier::external_body]
pub(crate) fn read_events(bytes: &Vec<u8>) -> (r: Vec<XmlEvent>)
    ensures
        r@ == events_of(bytes@),
{
    xml::EventReader::new(&bytes[..]).into_iter().map(|ev| match ev {
        Ok(RawXmlEvent::StartDocument { .. }) => XmlEvent::StartDocument,
        Ok(RawXmlEvent::StartElement { name, attributes, .. }) => XmlEvent::StartElement {
            name: name.local_name,
            attributes: attributes.into_iter().map(
                |a| Attribute { name: a.name.local_name, value: a.value },
            ).collect(),
        },
        Ok(RawXmlEvent::Characters(c)) => XmlEvent::Characters(c),
        Ok(RawXmlEvent::EndElement { .. }) => XmlEvent::EndElement,
        Ok(RawXmlEvent::EndDocument) => XmlEvent::EndDocument,
        Ok(_) => XmlEvent::Other,
        Err(_) => XmlEvent::Malformed,
    }).collect()
}

} // verus!
