//! Reading the layout file as a stream of XML events through quick-xml.
use vstd::prelude::*;

use quick_xml::events::Event::{Empty, End, Eof, Start, Text};
use quick_xml::Reader;

verus! {

/// One event of an XML document, as the layout parser consumes it.
#[derive(Debug)]
pub enum XmlEvent {
    /// An opening tag, with its local name.
    Start(String),
    /// A closing tag, with its local name.
    End(String),
    /// A self-closing tag, with its local name.
    Empty(String),
    /// Character data, trimmed and with entities resolved.
    Text(String),
    /// A declaration, comment, CDATA section, processing instruction or doctype.
    Other,
    /// The document is not well-formed XML.
    Malformed,
}

pub ghost enum XmlEventView {
    Start(Seq<char>),
    End(Seq<char>),
    Empty(Seq<char>),
    Text(Seq<char>),
    Other,
    Malformed,
}

impl View for XmlEvent {
    type V = XmlEventView;

    open spec fn view(&self) -> XmlEventView {
        match self {
            XmlEvent::Start(n) => XmlEventView::Start(n@),
            XmlEvent::End(n) => XmlEventView::End(n@),
            XmlEvent::Empty(n) => XmlEventView::Empty(n@),
            XmlEvent::Text(t) => XmlEventView::Text(t@),
            XmlEvent::Other => XmlEventView::Other,
            XmlEvent::Malformed => XmlEventView::Malformed,
        }
    }
}

impl Clone for XmlEvent {
    fn clone(&self) -> (r: XmlEvent)
        ensures
            r@ == self@,
    {
        match self {
            XmlEvent::Start(n) => XmlEvent::Start(n.clone()),
            XmlEvent::End(n) => XmlEvent::End(n.clone()),
            XmlEvent::Empty(n) => XmlEvent::Empty(n.clone()),
            XmlEvent::Text(t) => XmlEvent::Text(t.clone()),
            XmlEvent::Other => XmlEvent::Other,
            XmlEvent::Malformed => XmlEvent::Malformed,
        }
    }
}

/// The events of an XML document, read with the whitespace around
/// character data dropped, up to the end of the document; `None` where the
/// document is not well-formed or a text holds an unknown entity.
pub uninterp spec fn xml_events(s: Seq<char>) -> Option<Seq<XmlEventView>>;

/// Relies on quick_xml::Reader::from_str, Config::trim_text,
/// Reader::read_event, BytesStart/BytesEnd::local_name and
/// BytesText::unescape: the document's events, read until the end of the
/// document, or the first error, depend on its text alone.
#[verifier::external_body]
pub(crate) fn read_events(s: &str) -> (r: Option<Vec<XmlEvent>>)
    ensures
        match r {
            Some(v) => xml_events(s@) == Some(v@.map_values(|e: XmlEvent| e@)),
            None => xml_events(s@) is None,
        },
{
    let mut reader = Reader::from_str(s);
    reader.config_mut().trim_text(true);
    let mut events = vec![];
    loop {
        events.push(match reader.read_event() {
            Ok(Start(b)) => XmlEvent::Start(String::from_utf8_lossy(b.local_name().into_inner()).into()),
            Ok(End(b)) => XmlEvent::End(String::from_utf8_lossy(b.local_name().into_inner()).into()),
            Ok(Empty(b)) => XmlEvent::Empty(String::from_utf8_lossy(b.local_name().into_inner()).into()),
            Ok(Text(t)) => XmlEvent::Text(t.unescape().ok()?.into()),
            Ok(Eof) => break,
            Err(_) => return None,
            _ => XmlEvent::Other,
        });
    }
    Some(events)
}

} // verus!
