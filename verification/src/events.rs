//! The plain event streams of the pipeline.
//!
//! The XML tokenizer yields raw observations: an empty element with
//! its name and attribute text, something to skip, an ill-formedness
//! error with its diagnostic, or the end of input. Classifying the
//! element names reduces those to the few events the decoder cares
//! about: a `char` or `info` element with its attributes, anything
//! else to be skipped, a syntax error among an inspected element's
//! attributes, an ill-formed document, or the end of input.

use vstd::prelude::*;

verus! {

/// One attribute of an element, as raw key and value text.
pub struct RawAttr {
    pub key: String,
    pub value: String,
}

/// One raw observation of the XML document, before element names
/// are classified.
pub enum RawEventData {
    /// An empty element: its raw tag name, and its attributes —
    /// nothing from the first syntactically malformed one on.
    Element { name: String, attrs: Option<Vec<RawAttr>> },
    /// Anything the decoder ignores: other element forms, text,
    /// comments, processing instructions, declarations.
    Skip,
    /// An ill-formed document, with the tokenizer's diagnostic.
    Broken { detail: String },
    /// End of input.
    Eof,
}

/// One classified observation, as the decoder consumes it.
pub enum FntEvent {
    /// An empty `char` element, with its attributes.
    CharNode { attrs: Vec<RawAttr> },
    /// An empty `info` element, with its attributes.
    InfoNode { attrs: Vec<RawAttr> },
    /// Anything the decoder ignores.
    Skip,
    /// A syntactically malformed attribute on a `char` or `info` element.
    BadAttrs,
    /// An ill-formed document, with the tokenizer's diagnostic;
    /// decoding stops and keeps what it has.
    Broken { detail: String },
    /// End of input.
    Eof,
}

/// How one raw observation classifies: a `char` or `info` empty
/// element becomes a decoder event carrying its attributes, or a
/// malformed-attribute error; every other element is skipped.
pub open spec fn event_of(raw: RawEventData) -> FntEvent {
    match raw {
        RawEventData::Element { name, attrs } => {
            if name@ == "char"@ {
                match attrs {
                    Some(v) => FntEvent::CharNode { attrs: v },
                    None => FntEvent::BadAttrs,
                }
            } else if name@ == "info"@ {
                match attrs {
                    Some(v) => FntEvent::InfoNode { attrs: v },
                    None => FntEvent::BadAttrs,
                }
            } else {
                FntEvent::Skip
            }
        },
        RawEventData::Skip => FntEvent::Skip,
        RawEventData::Broken { detail } => FntEvent::Broken { detail },
        RawEventData::Eof => FntEvent::Eof,
    }
}

/// The classification of a whole raw stream.
pub open spec fn events_of_raw(raws: Seq<RawEventData>) -> Seq<FntEvent> {
    raws.map_values(|r: RawEventData| event_of(r))
}

} // verus!
