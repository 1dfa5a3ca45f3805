//! Trusted boundary around the `quick_xml` tokenizer.
//!
//! The library does not re-implement XML. One trusted wrapper reads
//! the whole document through `quick_xml` and hands back its raw
//! event stream as plain values. What that stream is for a given
//! text is a function of the text alone — the reader works on the
//! in-memory string, deterministically — so the stream bears a
//! name, `raw_events_of`, and everything downstream is verified
//! against it.

use crate::events::RawEventData::{Broken, Element, Eof, Skip};
use crate::events::{RawAttr, RawEventData};
use quick_xml::events::Event;
use vstd::prelude::*;

verus! {

/// The raw event stream that `quick_xml` yields for a document:
/// one observation per XML event up to and including the first
/// end-of-input or ill-formedness event.
pub uninterp spec fn raw_events_of(s: Seq<char>) -> Seq<RawEventData>;

/// Relies on `quick_xml::Reader::{from_str, read_event}` and on
/// `BytesStart::{name, attributes}`: tokenizes the document,
/// keeping each empty element's raw tag name and attribute text
/// (nothing from the first syntactically malformed attribute on),
/// reducing every other event kind to `Skip`, and ending with end
/// of input or an ill-formedness diagnostic.
#[verifier::external_body]
pub(crate) fn raw_events(s: &str) -> (evs: Vec<RawEventData>)
    ensures
        evs@ == raw_events_of(s@),
{
    let mut r = quick_xml::Reader::from_str(s);
    let mut v: Vec<RawEventData> = Vec::new();
    loop {
        match r.read_event() {
            Ok(Event::Empty(e)) => v.push(Element {
                name: e.name().as_ref().to_owned(),
                attrs: e.attributes().map(|a| a.ok().map(|a| RawAttr { key: a.key.as_ref().to_owned(), value: a.value.into_owned() })).collect(),
            }),
            Ok(Event::Eof) => { v.push(Eof); return v; },
            Ok(_) => v.push(Skip),
            Err(e) => { v.push(Broken { detail: format!("{:?}", e) }); return v; },
        }
    }
}

} // verus!
