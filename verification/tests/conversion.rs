use fnt2lua::convert;
use fnt2lua::convert_report;
use fnt2lua::decoder::{decode_events, decode_events_report, parse_fnt, ConversionError};
use fnt2lua::emitter::format_output;
use fnt2lua::events::{FntEvent, RawAttr};
use fnt2lua::glyph::GlyphMap;
use fnt2lua::numbers::{parse_i32, parse_u32};

const MINIMAL: &str = "<font><info size=\"16\"/><chars><char id=\"65\" x=\"0\" y=\"0\" width=\"8\" height=\"16\" xoffset=\"0\" yoffset=\"0\" xadvance=\"8\"/></chars></font>";

const MINIMAL_OUT: &str = "return {\n    Size = 16,\n    Characters = {\n        [\"A\"] = { Vector2.new(8, 16), Vector2.new(0, 0), Vector2.new(0, 0), 8 },\n    }\n}\n";

#[test]
fn minimal_document() {
    assert_eq!(convert(MINIMAL).unwrap(), MINIMAL_OUT);
}

#[test]
fn conversion_is_deterministic() {
    let a = convert(MINIMAL).unwrap();
    let b = convert(MINIMAL).unwrap();
    assert_eq!(a, b);
}

#[test]
fn size_defaults_to_zero_without_info() {
    let out = convert("<font><chars><char id=\"65\"/></chars></font>").unwrap();
    assert!(out.contains("Size = 0,"));
}

#[test]
fn empty_map_output_shape() {
    let m = GlyphMap::new();
    assert_eq!(
        format_output(0, &m),
        "return {\n    Size = 0,\n    Characters = {\n    }\n}\n"
    );
}

#[test]
fn char_with_only_id_defaults_all_fields() {
    let out = convert("<font><chars><char id=\"65\"/></chars></font>").unwrap();
    assert!(out.contains(
        "[\"A\"] = { Vector2.new(0, 0), Vector2.new(0, 0), Vector2.new(0, 0), 0 }"
    ));
}

#[test]
fn unknown_attributes_are_ignored() {
    let plain = convert("<font><chars><char id=\"65\" width=\"8\" height=\"16\"/></chars></font>")
        .unwrap();
    let extra = convert(
        "<font><chars><char id=\"65\" width=\"8\" height=\"16\" chnl=\"15\" page=\"0\"/></chars></font>",
    )
    .unwrap();
    assert_eq!(plain, extra);
    assert!(extra.contains(
        "[\"A\"] = { Vector2.new(8, 16), Vector2.new(0, 0), Vector2.new(0, 0), 0 }"
    ));
    assert!(!extra.contains("chnl"));
    assert!(!extra.contains("page"));
}

#[test]
fn unknown_elements_are_ignored() {
    let plain = convert("<font><info size=\"16\"/><chars><char id=\"65\"/></chars></font>")
        .unwrap();
    let extra = convert(
        "<font><info size=\"16\"/><common lineHeight=\"19\"/><pages><page id=\"0\" file=\"a.png\"/></pages><chars><char id=\"65\"/></chars><kernings><kerning first=\"65\" second=\"66\" amount=\"-1\"/></kernings></font>",
    )
    .unwrap();
    assert_eq!(plain, extra);
}

#[test]
fn quote_key_is_escaped() {
    let out = convert("<font><chars><char id=\"34\"/></chars></font>").unwrap();
    assert!(out.contains("[\"\\\"\"] = "));
}

#[test]
fn backslash_key_is_escaped() {
    let out = convert("<font><chars><char id=\"92\"/></chars></font>").unwrap();
    assert!(out.contains("[\"\\\\\"] = "));
}

#[test]
fn newline_key_is_hex_escaped() {
    let out = convert("<font><chars><char id=\"10\"/></chars></font>").unwrap();
    assert!(out.contains("[\"\\u{A}\"] = "));
}

#[test]
fn nul_and_carriage_return_keys_are_empty() {
    let out0 = convert("<font><chars><char id=\"0\"/></chars></font>").unwrap();
    assert!(out0.contains("[\"\"] = "));
    let out13 = convert("<font><chars><char id=\"13\"/></chars></font>").unwrap();
    assert!(out13.contains("[\"\"] = "));
}

#[test]
fn ordinary_key_is_literal() {
    let out = convert("<font><chars><char id=\"65\"/></chars></font>").unwrap();
    assert!(out.contains("[\"A\"] = "));
}

#[test]
fn emoji_key_is_literal() {
    let out = convert("<font><chars><char id=\"128512\"/></chars></font>").unwrap();
    assert!(out.contains("[\"\u{1F600}\"] = "));
}

#[test]
fn surrogate_codepoint_is_hex_escaped() {
    let out = convert("<font><chars><char id=\"55296\"/></chars></font>").unwrap();
    assert!(out.contains("[\"\\u{D800}\"] = "));
}

#[test]
fn negative_offsets_keep_their_sign() {
    let out = convert(
        "<font><chars><char id=\"106\" xoffset=\"-2\" yoffset=\"-1\"/></chars></font>",
    )
    .unwrap();
    assert!(out.contains(
        "[\"j\"] = { Vector2.new(0, 0), Vector2.new(0, 0), Vector2.new(-2, -1), 0 }"
    ));
}

#[test]
fn entries_come_in_ascending_codepoint_order() {
    let out = convert(
        "<font><chars><char id=\"66\" xadvance=\"2\"/><char id=\"65\" xadvance=\"1\"/></chars></font>",
    )
    .unwrap();
    let a = out.find("[\"A\"]").unwrap();
    let b = out.find("[\"B\"]").unwrap();
    assert!(a < b);
}

#[test]
fn later_duplicate_codepoint_wins() {
    let out = convert(
        "<font><chars><char id=\"65\" width=\"1\"/><char id=\"65\" width=\"7\"/></chars></font>",
    )
    .unwrap();
    assert!(out.contains(
        "[\"A\"] = { Vector2.new(7, 0), Vector2.new(0, 0), Vector2.new(0, 0), 0 }"
    ));
    assert!(!out.contains("Vector2.new(1, 0)"));
}

#[test]
fn bad_integer_is_an_error() {
    assert_eq!(
        convert("<font><chars><char id=\"65\" xadvance=\"abc\"/></chars></font>"),
        Err(ConversionError::InvalidNumber)
    );
}

#[test]
fn bad_integer_on_info_is_an_error() {
    assert_eq!(
        convert("<font><info size=\"big\"/></font>"),
        Err(ConversionError::InvalidNumber)
    );
}

#[test]
fn malformed_attribute_is_an_error() {
    assert_eq!(
        convert("<font><chars><char id=65/></chars></font>"),
        Err(ConversionError::AttributeSyntax)
    );
}

#[test]
fn truncated_document_keeps_what_was_read() {
    let closed = convert("<font><info size=\"12\"/><chars><char id=\"65\"/></chars></font>")
        .unwrap();
    let open = convert("<font><info size=\"12\"/><chars><char id=\"65\"/>").unwrap();
    assert_eq!(closed, open);
}

#[test]
fn last_size_wins() {
    let out = convert("<font><info size=\"16\"/><info size=\"20\"/></font>").unwrap();
    assert!(out.contains("Size = 20,"));
}

#[test]
fn decode_events_directly() {
    let events = vec![
        FntEvent::InfoNode {
            attrs: vec![RawAttr { key: "size".to_string(), value: "9".to_string() }],
        },
        FntEvent::Skip,
        FntEvent::CharNode {
            attrs: vec![
                RawAttr { key: "id".to_string(), value: "65".to_string() },
                RawAttr { key: "xadvance".to_string(), value: "3".to_string() },
            ],
        },
        FntEvent::Eof,
    ];
    let (size, map) = decode_events(&events).unwrap();
    assert_eq!(size, 9);
    assert_eq!(map.len(), 1);
    let (id, ch) = map.entry_at(0);
    assert_eq!(id, 65);
    assert_eq!(ch.advance, 3);
    assert_eq!(ch.size.width, 0);
}

#[test]
fn glyph_map_insert_keeps_ascending_order() {
    let events = vec![
        FntEvent::CharNode {
            attrs: vec![RawAttr { key: "id".to_string(), value: "66".to_string() }],
        },
        FntEvent::CharNode {
            attrs: vec![RawAttr { key: "id".to_string(), value: "65".to_string() }],
        },
        FntEvent::Eof,
    ];
    let (_, map) = decode_events(&events).unwrap();
    assert_eq!(map.len(), 2);
    assert_eq!(map.entry_at(0).0, 65);
    assert_eq!(map.entry_at(1).0, 66);
}

#[test]
fn parse_fnt_returns_size_and_map() {
    let (size, map) = parse_fnt(MINIMAL).unwrap();
    assert_eq!(size, 16);
    assert_eq!(map.len(), 1);
    assert_eq!(map.entry_at(0).0, 65);
}

#[test]
fn control_keys_use_uppercase_hex_without_leading_zeros() {
    let out = convert("<font><chars><char id=\"31\"/></chars></font>").unwrap();
    assert!(out.contains("[\"\\u{1F}\"] = "));
    let del = convert("<font><chars><char id=\"127\"/></chars></font>").unwrap();
    assert!(del.contains("[\"\\u{7F}\"] = "));
    let c1 = convert("<font><chars><char id=\"159\"/></chars></font>").unwrap();
    assert!(c1.contains("[\"\\u{9F}\"] = "));
}

#[test]
fn non_control_high_codepoint_is_literal() {
    let out = convert("<font><chars><char id=\"160\"/></chars></font>").unwrap();
    assert!(out.contains("[\"\u{A0}\"] = "));
}

#[test]
fn codepoint_beyond_scalar_range_is_hex_escaped() {
    let out = convert("<font><chars><char id=\"4294967295\"/></chars></font>").unwrap();
    assert!(out.contains("[\"\\u{FFFFFFFF}\"] = "));
}

#[test]
fn negative_size_keeps_its_sign() {
    let out = convert("<font><info size=\"-3\"/></font>").unwrap();
    assert!(out.contains("Size = -3,"));
}

#[test]
fn well_formed_document_reports_no_diagnostic() {
    let (result, diagnostic) = convert_report(MINIMAL);
    assert_eq!(result.unwrap(), MINIMAL_OUT);
    assert!(diagnostic.is_none());
}

#[test]
fn ill_formed_rest_is_tolerated_and_reported() {
    let (result, diagnostic) = convert_report("<font><info size=\"12\"/><!-- unclosed");
    let out = result.unwrap();
    assert!(out.contains("Size = 12,"));
    assert!(diagnostic.is_some());
}

#[test]
fn decode_report_carries_the_diagnostic() {
    let events = vec![
        FntEvent::InfoNode {
            attrs: vec![RawAttr { key: "size".to_string(), value: "8".to_string() }],
        },
        FntEvent::Broken { detail: "boom".to_string() },
    ];
    let (result, diagnostic) = decode_events_report(&events);
    let (size, map) = result.unwrap();
    assert_eq!(size, 8);
    assert_eq!(map.len(), 0);
    assert_eq!(diagnostic, Some("boom".to_string()));
}

#[test]
fn decode_report_is_silent_when_decoding_fails_first() {
    let events = vec![
        FntEvent::CharNode {
            attrs: vec![RawAttr { key: "id".to_string(), value: "nope".to_string() }],
        },
        FntEvent::Broken { detail: "later".to_string() },
    ];
    let (result, diagnostic) = decode_events_report(&events);
    assert_eq!(result.unwrap_err(), ConversionError::InvalidNumber);
    assert!(diagnostic.is_none());
}

#[test]
fn integer_parsing_matches_from_str() {
    assert_eq!(parse_u32("65"), Some(65));
    assert_eq!(parse_u32("+65"), Some(65));
    assert_eq!(parse_u32("-1"), None);
    assert_eq!(parse_u32(""), None);
    assert_eq!(parse_u32("4294967295"), Some(u32::MAX));
    assert_eq!(parse_u32("4294967296"), None);
    assert_eq!(parse_u32("12a"), None);
    assert_eq!(parse_i32("-2"), Some(-2));
    assert_eq!(parse_i32("+7"), Some(7));
    assert_eq!(parse_i32("2147483647"), Some(i32::MAX));
    assert_eq!(parse_i32("2147483648"), None);
    assert_eq!(parse_i32("-2147483648"), Some(i32::MIN));
    assert_eq!(parse_i32("-2147483649"), None);
    assert_eq!(parse_i32(" 1"), None);
}
