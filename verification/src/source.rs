//! The trusted boundary to the XML pull parser: type declarations for the
//! parser and its error, and the wrappers the decoder calls through.

use vstd::prelude::*;
use crate::events::{Attr, Event};
use xml::reader::XmlEvent;

verus! {

#[verifier::external_type_specification]
#[verifier::external_body]
pub struct ExXmlError(xml::reader::Error);

/// A pull parser over an in-memory XML document. The parser type is
/// generic over a byte source bounded by a trait Verus cannot take, so
/// the whole handle is held opaquely.
#[verifier::external_body]
pub struct ByteReader {
    reader: xml::reader::EventReader<std::io::Cursor<Vec<u8>>>,
}

/// Relies on xml::reader::EventReader::new (with std::io::Cursor::new):
/// builds a pull parser that reads the given bytes from the start.
#[verifier::external_body]
pub(crate) fn open_document(data: Vec<u8>) -> ByteReader {
    ByteReader { reader: xml::reader::EventReader::new(std::io::Cursor::new(data)) }
}

/// How many events the parser can still yield before the document ends:
/// a finite in-memory document yields finitely many events.
pub uninterp spec fn source_budget(r: ByteReader) -> nat;

/// Relies on xml::reader::EventReader::next: pulls the next XML parse
/// event, or the parser's error. What event comes depends on the
/// parser's hidden state, so nothing is promised of it; callers handle
/// every outcome. The parser moves strictly forward through its finite
/// in-memory input, so each call that reports neither the document's end
/// nor an error leaves strictly fewer events to yield.
#[verifier::external_body]
pub(crate) fn next_document_event(r: &mut ByteReader) -> (res: Result<Event, xml::reader::Error>)
    ensures
        source_budget(*final(r)) < source_budget(*old(r)) || (res matches Ok(ev)
            && ev is DocumentEnd) || res is Err,
{
    match r.reader.next() {
        Ok(XmlEvent::StartElement { name, attributes, .. }) => Ok(Event::ElementStart {
            name: name.local_name,
            attributes: attributes
                .into_iter()
                .map(|a| Attr { name: a.name.local_name, value: a.value })
                .collect(),
        }),
        Ok(XmlEvent::EndElement { name }) => Ok(Event::ElementEnd { name: name.local_name }),
        Ok(XmlEvent::Characters(data)) => Ok(Event::Text { data }),
        Ok(XmlEvent::EndDocument) => Ok(Event::DocumentEnd),
        Ok(_) => Ok(Event::Other),
        Err(e) => Err(e),
    }
}

/// An error reported by the underlying XML event source.
#[derive(Debug)]
pub struct DecodeError {
    inner: xml::reader::Error,
}

impl DecodeError {
    pub(crate) fn from_xml(e: xml::reader::Error) -> DecodeError {
        DecodeError { inner: e }
    }

    /// The event source's own error value.
    pub fn xml_error(&self) -> &xml::reader::Error {
        &self.inner
    }
}

} // verus!
