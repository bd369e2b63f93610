//! Descriptor-assembler tests: CFF rejection, font-wide elements,
//! round-trip idempotence and the wrapper-only descriptor for compressed
//! containers.

use fc_fontations::font::{Axis, FontHandle, InstanceRecord, NameRecord, SlantStyle};
use fc_fontations::values::{AttributeValue, ObjectKey, PatternElement};
use fc_fontations::{build_patterns_for_font, build_woff_pattern};

const FX: i64 = 65536;
const TAG_GLYF: u32 = 0x676C7966;
const TAG_CFF: u32 = 0x43464620;
const TAG_CFF2: u32 = 0x43464632;
const TAG_FPGM: u32 = 0x6670676D;

fn rec(name_id: u16, lang: Option<&str>, value: &str) -> NameRecord {
    NameRecord {
        name_id,
        language: lang.map(|l| l.as_bytes().to_vec()),
        value: value.as_bytes().to_vec(),
    }
}

fn glyf_font() -> FontHandle {
    FontHandle {
        tables: vec![TAG_GLYF],
        prep_len: None,
        cff_major: None,
        os2_weight_class: Some(400),
        os2_width_class: Some(5),
        attr_weight: 400,
        attr_width_class: 5,
        attr_style: SlantStyle::Roman,
        axes: vec![],
        instances: vec![],
        name_records: Some(vec![rec(1, Some("en"), "Example")]),
        default_advances: vec![10 * FX, 15 * FX, 20 * FX],
        is_symbol: false,
        font_version: Some(0x00010000),
        foundry: None,
        capabilities: None,
    }
}

fn elem(object: ObjectKey, value: AttributeValue) -> PatternElement {
    PatternElement { object, value }
}

#[test]
fn cff_major_version_two_rejects_the_font() {
    let mut font = glyf_font();
    font.tables = vec![TAG_CFF];
    font.cff_major = Some(2);
    let file = b"/fonts/example.otf".to_vec();
    assert!(build_patterns_for_font(&font, &file, None).is_empty());

    // An unreadable CFF header rejects too.
    font.cff_major = None;
    assert!(build_patterns_for_font(&font, &file, None).is_empty());

    // Major version 1 is accepted.
    font.cff_major = Some(1);
    assert_eq!(build_patterns_for_font(&font, &file, None).len(), 1);

    // A CFF2-only font is not subject to the check.
    font.tables = vec![TAG_CFF2];
    font.cff_major = None;
    assert_eq!(build_patterns_for_font(&font, &file, None).len(), 1);
}

#[test]
fn extraction_is_idempotent() {
    let mut font = glyf_font();
    font.axes = vec![Axis { tag: 0x77676874, min: 100 * FX, def: 400 * FX, max: 900 * FX }];
    font.instances = vec![InstanceRecord {
        coords: vec![700 * FX],
        subfamily_name_id: 257,
        postscript_name_id: None,
        advances: vec![10 * FX],
    }];
    font.name_records = Some(vec![
        rec(1, Some("en"), "Example"),
        rec(2, Some("en"), "Regular"),
        rec(257, Some("en"), "Bold"),
    ]);
    let file = b"/fonts/example.ttf".to_vec();
    let first = build_patterns_for_font(&font, &file, Some(0));
    let second = build_patterns_for_font(&font, &file, Some(0));
    assert_eq!(first, second);
    // One descriptor per instance mode: default, one named, variable.
    assert_eq!(first.len(), 3);
}

#[test]
fn font_wide_elements_are_present_and_ordered() {
    let font = glyf_font();
    let file = b"/fonts/example.ttf".to_vec();
    let patterns = build_patterns_for_font(&font, &file, None);
    assert_eq!(patterns.len(), 1);
    let p = &patterns[0];
    assert_eq!(p[0], elem(ObjectKey::Outline, AttributeValue::Boolean(true)));
    assert_eq!(p[1], elem(ObjectKey::Color, AttributeValue::Boolean(false)));
    assert_eq!(p[2], elem(ObjectKey::Scalable, AttributeValue::Boolean(true)));
    assert_eq!(p[3], elem(ObjectKey::FontHasHint, AttributeValue::Boolean(false)));
    assert_eq!(
        p[4],
        elem(ObjectKey::FontFormat, AttributeValue::Text(b"TrueType".to_vec())),
    );
    assert_eq!(p[5], elem(ObjectKey::Foundry, AttributeValue::Text(b"unknown".to_vec())));
    assert_eq!(p[6], elem(ObjectKey::Symbol, AttributeValue::Boolean(false)));
    assert_eq!(
        p[7],
        elem(ObjectKey::File, AttributeValue::Text(b"/fonts/example.ttf".to_vec())),
    );
    assert_eq!(p[8], elem(ObjectKey::FontWrapper, AttributeValue::Text(b"SFNT".to_vec())));
    assert_eq!(p[9], elem(ObjectKey::FontVersion, AttributeValue::Int(0x00010000)));
    assert_eq!(p[10], elem(ObjectKey::Order, AttributeValue::Int(0)));
    // Names follow the base, style elements follow the names.
    assert_eq!(p[11], elem(ObjectKey::Family, AttributeValue::Text(b"Example".to_vec())));
}

#[test]
fn cff_format_tag_and_hinting() {
    let mut font = glyf_font();
    font.tables = vec![TAG_CFF, TAG_FPGM];
    font.cff_major = Some(1);
    let file = b"/fonts/example.otf".to_vec();
    let patterns = build_patterns_for_font(&font, &file, None);
    let p = &patterns[0];
    assert_eq!(p[3], elem(ObjectKey::FontHasHint, AttributeValue::Boolean(true)));
    assert_eq!(p[4], elem(ObjectKey::FontFormat, AttributeValue::Text(b"CFF".to_vec())));
}

#[test]
fn trivial_prep_program_is_not_hinting() {
    let mut font = glyf_font();
    font.prep_len = Some(7);
    let file = b"/fonts/example.ttf".to_vec();
    let patterns = build_patterns_for_font(&font, &file, None);
    assert_eq!(patterns[0][3], elem(ObjectKey::FontHasHint, AttributeValue::Boolean(false)));

    font.prep_len = Some(8);
    let patterns = build_patterns_for_font(&font, &file, None);
    assert_eq!(patterns[0][3], elem(ObjectKey::FontHasHint, AttributeValue::Boolean(true)));
}

#[test]
fn failed_names_skip_only_that_descriptor() {
    let mut font = glyf_font();
    // No name table at all: every mode fails, no descriptors.
    font.name_records = None;
    let file = b"/fonts/example.ttf".to_vec();
    assert!(build_patterns_for_font(&font, &file, None).is_empty());
}

#[test]
fn woff_wrapper_pattern_from_magic_bytes() {
    let file = b"/fonts/example.woff".to_vec();
    let bytes = b"wOFFrest-of-file".to_vec();
    assert_eq!(
        build_woff_pattern(&bytes, &file),
        Some(vec![
            elem(ObjectKey::FontWrapper, AttributeValue::Text(b"WOFF".to_vec())),
            elem(ObjectKey::File, AttributeValue::Text(b"/fonts/example.woff".to_vec())),
        ]),
    );
    let bytes2 = b"wOF2rest-of-file".to_vec();
    assert_eq!(
        build_woff_pattern(&bytes2, &file),
        Some(vec![
            elem(ObjectKey::FontWrapper, AttributeValue::Text(b"WOFF2".to_vec())),
            elem(ObjectKey::File, AttributeValue::Text(b"/fonts/example.woff".to_vec())),
        ]),
    );
    assert_eq!(build_woff_pattern(&b"OTTOabcd".to_vec(), &file), None);
    assert_eq!(build_woff_pattern(&b"wO".to_vec(), &file), None);
}
