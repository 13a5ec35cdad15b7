//! Reading a document from markup text: the tokenizer is the `xml` crate,
//! the tree is built here.

use vstd::prelude::*;
use crate::builder::{build, build_spec};
use crate::event::{events_view, Event, EventView};
use crate::model::UPFData;
use xml::reader::XmlEvent;

verus! {

/// The error of the `xml` crate's reader: a position in the text and what
/// was wrong there.
#[verifier::external_type_specification]
#[verifier::external_body]
pub struct ExReaderError(xml::reader::Error);

/// The events that the `xml` crate's reader, in its default configuration,
/// reports for a text, up to and with the end of the document; `None` where
/// it reports an error instead.
pub uninterp spec fn xml_events(input: Seq<char>) -> Option<Seq<EventView>>;

/// The input was not well-formed markup.
#[derive(Debug)]
pub struct ParseError {
    /// What the tokenizer reported, with the position in the text.
    pub source: xml::reader::Error,
}

/// Runs `xml::reader::EventReader::from_str(input)`, with the reader's
/// default configuration, to its end and hands each event over as an
/// `Event`: local names for tags and attribute names, `Other` for every kind
/// of event but element start, characters and element end. The first error
/// ends the run and is returned. Trusted: the outcome depends on the text
/// alone, so it is `xml_events` of the text; nothing more is claimed of it.
#[verifier::external_body]
fn read_events(input: &str) -> (r: Result<Vec<Event>, xml::reader::Error>)
    ensures
        match r {
            Ok(events) => xml_events(input@) == Some(events_view(events@)),
            Err(_) => xml_events(input@).is_none(),
        },
{
    let mut events = Vec::new();
    for item in xml::reader::EventReader::from_str(input) {
        events.push(match item? {
            XmlEvent::StartElement { name, attributes, .. } => Event::Open {
                tag: name.local_name,
                attributes: attributes.into_iter().map(|a| (a.name.local_name, a.value)).collect(),
            },
            XmlEvent::Characters(content) => Event::Text { content },
            XmlEvent::EndElement { name } => Event::Close { tag: name.local_name },
            _ => Event::Other,
        });
    }
    Ok(events)
}

/// The outcome of a parse, given what the tokenizer reported: the document
/// that its events describe, or its error, handed on as it is.
pub fn document_of(outcome: Result<Vec<Event>, xml::reader::Error>) -> (r: Result<
    UPFData,
    ParseError,
>)
    ensures
        match outcome {
            Ok(events) => r.is_ok() && r.unwrap().well_formed() && r.unwrap()@ == build_spec(
                events_view(events@),
            ),
            Err(source) => r.is_err() && r.unwrap_err().source == source,
        },
{
    match outcome {
        Ok(events) => Ok(build(&events)),
        Err(source) => Err(ParseError { source }),
    }
}

impl UPFData {
    /// Parses a document from markup text.
    ///
    /// Where the tokenizer accepts the text, the result is the document that
    /// its events describe; where it reports an error, that error is
    /// returned and no document.
    pub fn parse(input: &str) -> (r: Result<UPFData, ParseError>)
        ensures
            match xml_events(input@) {
                Some(events) => r.is_ok() && r.unwrap().well_formed() && r.unwrap()@
                    == build_spec(events),
                None => r.is_err(),
            },
    {
        document_of(read_events(input))
    }
}

} // verus!
