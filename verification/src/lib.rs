//! Converts BMFont XML font descriptors into Lua glyph tables.
//!
//! The library decodes the `info` and `char` elements of a `.fnt`
//! document into a font size and an ordered map from codepoint to
//! glyph metrics, and renders that data as a Lua source file whose
//! top-level value is a table keyed by character.

pub mod decoder;
pub mod emitter;
pub mod events;
pub mod glyph;
pub mod numbers;
pub mod xml;

use crate::decoder::{decode_spec, parse_fnt, tokenize, truncation_diag, ConversionError};
use crate::decoder::decode_events_report;
use crate::emitter::{format_output, output_spec};
use crate::events::events_of_raw;
use crate::glyph::Character;
use crate::xml::raw_events_of;
use vstd::prelude::*;

verus! {

/// Converts the text of a BMFont XML document into the Lua source
/// text, or says why the conversion failed. The result renders the
/// decoding of the document's own event stream.
pub fn convert(content: &str) -> (r: Result<String, ConversionError>)
    ensures
        ({
            let d = decode_spec(events_of_raw(raw_events_of(content@)));
            match r {
                Ok(text) => d matches Ok(v) && text@ == output_spec(v.0, v.1),
                Err(e) => d == Err::<(i32, Seq<(u32, Character)>), ConversionError>(e),
            }
        }),
{
    match parse_fnt(content) {
        Ok((size, map)) => Ok(format_output(size, &map)),
        Err(e) => Err(e),
    }
}

/// Converts as `convert` does, and also hands back the tokenizer's
/// diagnostic where decoding stopped at an ill-formed rest of the
/// document: the conversion is then best-effort, and the caller can
/// log what was wrong with the input.
pub fn convert_report(content: &str) -> (r: (Result<String, ConversionError>, Option<String>))
    ensures
        ({
            let evs = events_of_raw(raw_events_of(content@));
            let d = decode_spec(evs);
            &&& match r.0 {
                Ok(text) => d matches Ok(v) && text@ == output_spec(v.0, v.1),
                Err(e) => d == Err::<(i32, Seq<(u32, Character)>), ConversionError>(e),
            }
            &&& match r.1 {
                Some(diag) => truncation_diag(evs) == Some(diag@),
                None => truncation_diag(evs) is None,
            }
        }),
{
    let events = tokenize(content);
    let (res, diag) = decode_events_report(&events);
    match res {
        Ok((size, map)) => (Ok(format_output(size, &map)), diag),
        Err(e) => (Err(e), diag),
    }
}

} // verus!
