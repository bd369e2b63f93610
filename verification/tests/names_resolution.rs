//! Name-resolver tests: deduplication, mangling, language normalization,
//! fallback family and generic-family classification.

use fc_fontations::font::{Axis, FontHandle, InstanceRecord, NameRecord, SlantStyle};
use fc_fontations::instance_enumerate::InstanceMode;
use fc_fontations::names::{
    add_names, get_generic_family, mangle_postscript_name_for_named_instance, normalize_language,
    NameAddingError,
};
use fc_fontations::values::{AttributeValue, GenericFamily, ObjectKey, PatternElement};

fn rec(name_id: u16, lang: Option<&str>, value: &str) -> NameRecord {
    NameRecord {
        name_id,
        language: lang.map(|l| l.as_bytes().to_vec()),
        value: value.as_bytes().to_vec(),
    }
}

fn font_with_records(records: Vec<NameRecord>) -> FontHandle {
    FontHandle {
        tables: vec![],
        prep_len: None,
        cff_major: None,
        os2_weight_class: None,
        os2_width_class: None,
        attr_weight: 400,
        attr_width_class: 5,
        attr_style: SlantStyle::Roman,
        axes: vec![],
        instances: vec![],
        name_records: Some(records),
        default_advances: vec![],
        is_symbol: false,
        font_version: None,
        foundry: None,
        capabilities: None,
    }
}

fn count_key(pattern: &[PatternElement], key: ObjectKey) -> usize {
    pattern.iter().filter(|e| e.object == key).count()
}

fn text_values(pattern: &[PatternElement], key: ObjectKey) -> Vec<Vec<u8>> {
    pattern
        .iter()
        .filter(|e| e.object == key)
        .map(|e| match &e.value {
            AttributeValue::Text(t) => t.clone(),
            _ => panic!("expected a text value"),
        })
        .collect()
}

#[test]
fn duplicate_names_collapse_across_languages() {
    let font = font_with_records(vec![
        rec(1, Some("en"), "Foo Bar"),
        rec(1, Some("de"), "FOO BAR"),
    ]);
    let mut pattern = Vec::new();
    let file = b"/fonts/foo.ttf".to_vec();
    assert!(add_names(&font, &file, InstanceMode::Default, &mut pattern).is_ok());
    assert_eq!(count_key(&pattern, ObjectKey::Family), 1);
    assert_eq!(text_values(&pattern, ObjectKey::Family), vec![b"Foo Bar".to_vec()]);
    assert_eq!(count_key(&pattern, ObjectKey::FamilyLang), 1);
}

#[test]
fn typographic_family_comes_first() {
    let font = font_with_records(vec![
        rec(1, Some("en"), "Plain Family"),
        rec(16, Some("en"), "Typographic Family"),
    ]);
    let mut pattern = Vec::new();
    let file = b"/fonts/foo.ttf".to_vec();
    assert!(add_names(&font, &file, InstanceMode::Default, &mut pattern).is_ok());
    assert_eq!(
        text_values(&pattern, ObjectKey::Family),
        vec![b"Typographic Family".to_vec(), b"Plain Family".to_vec()],
    );
}

#[test]
fn postscript_mangling_synthesizes_prefix_and_subfamily() {
    let mut font = font_with_records(vec![
        rec(1, Some("en"), "Example"),
        rec(257, Some("en"), "Bold"),
    ]);
    font.axes = vec![Axis { tag: 0x77676874, min: 100 << 16, def: 400 << 16, max: 900 << 16 }];
    font.instances = vec![InstanceRecord {
        coords: vec![700 << 16],
        subfamily_name_id: 257,
        postscript_name_id: None,
        advances: vec![],
    }];
    assert_eq!(
        mangle_postscript_name_for_named_instance(&font, 0),
        Some(b"Example-Bold".to_vec()),
    );
}

#[test]
fn mangling_prefers_english_source_strings() {
    let mut font = font_with_records(vec![
        rec(1, Some("de"), "Beispiel"),
        rec(1, Some("en-US"), "Example"),
        rec(257, Some("de"), "Fett"),
        rec(257, Some("en-US"), "Bold"),
    ]);
    font.axes = vec![Axis { tag: 0x77676874, min: 100 << 16, def: 400 << 16, max: 900 << 16 }];
    font.instances = vec![InstanceRecord {
        coords: vec![700 << 16],
        subfamily_name_id: 257,
        postscript_name_id: None,
        advances: vec![],
    }];
    assert_eq!(
        mangle_postscript_name_for_named_instance(&font, 0),
        Some(b"Example-Bold".to_vec()),
    );
}

#[test]
fn named_instance_replaces_postscript_subfamily_and_full_name() {
    let mut font = font_with_records(vec![
        rec(1, Some("en"), "Example"),
        rec(2, Some("en"), "Regular"),
        rec(4, Some("en"), "Example Regular"),
        rec(6, Some("en"), "Example-Regular"),
        rec(257, Some("en"), "Bold"),
    ]);
    font.axes = vec![Axis { tag: 0x77676874, min: 100 << 16, def: 400 << 16, max: 900 << 16 }];
    font.instances = vec![InstanceRecord {
        coords: vec![700 << 16],
        subfamily_name_id: 257,
        postscript_name_id: None,
        advances: vec![],
    }];
    let mut pattern = Vec::new();
    let file = b"/fonts/example.ttf".to_vec();
    assert!(add_names(&font, &file, InstanceMode::Named(0), &mut pattern).is_ok());
    assert_eq!(
        text_values(&pattern, ObjectKey::PostscriptName),
        vec![b"Example-Bold".to_vec()],
    );
    assert_eq!(text_values(&pattern, ObjectKey::Style), vec![b"Bold".to_vec()]);
    assert_eq!(
        text_values(&pattern, ObjectKey::FullName),
        vec![b"Example Bold".to_vec()],
    );
}

#[test]
fn variable_mode_suppresses_instance_specific_names() {
    let font = font_with_records(vec![
        rec(1, Some("en"), "Example"),
        rec(2, Some("en"), "Regular"),
        rec(4, Some("en"), "Example Regular"),
        rec(6, Some("en"), "Example-Regular"),
        rec(17, Some("en"), "Display"),
        rec(18, Some("en"), "Example Compatible"),
        rec(22, Some("en"), "Example WWS"),
    ]);
    let mut pattern = Vec::new();
    let file = b"/fonts/example.ttf".to_vec();
    assert!(add_names(&font, &file, InstanceMode::Variable, &mut pattern).is_ok());
    assert_eq!(count_key(&pattern, ObjectKey::Family), 1);
    assert_eq!(count_key(&pattern, ObjectKey::Style), 0);
    assert_eq!(count_key(&pattern, ObjectKey::FullName), 0);
    assert_eq!(count_key(&pattern, ObjectKey::PostscriptName), 0);
}

#[test]
fn fallback_family_from_filename() {
    let font = font_with_records(vec![]);
    let mut pattern = Vec::new();
    let file = b"CustomFont.ttf".to_vec();
    assert!(add_names(&font, &file, InstanceMode::Default, &mut pattern).is_ok());
    assert_eq!(text_values(&pattern, ObjectKey::Family), vec![b"CustomFont".to_vec()]);
    assert_eq!(text_values(&pattern, ObjectKey::FamilyLang), vec![b"en".to_vec()]);
}

#[test]
fn fallback_family_strips_directory_and_extension() {
    let font = font_with_records(vec![]);
    let mut pattern = Vec::new();
    let file = b"/usr/share/fonts/Custom Font.v2.otf".to_vec();
    assert!(add_names(&font, &file, InstanceMode::Default, &mut pattern).is_ok());
    assert_eq!(
        text_values(&pattern, ObjectKey::Family),
        vec![b"Custom Font.v2".to_vec()],
    );
}

#[test]
fn missing_name_table_is_an_error() {
    let mut font = font_with_records(vec![]);
    font.name_records = None;
    let mut pattern = Vec::new();
    let file = b"/fonts/foo.ttf".to_vec();
    let r = add_names(&font, &file, InstanceMode::Default, &mut pattern);
    assert!(matches!(r, Err(NameAddingError::NoNameTable)));
    assert!(pattern.is_empty());
}

#[test]
fn unusable_filename_without_family_is_an_error() {
    let font = font_with_records(vec![]);
    let mut pattern = Vec::new();
    let file = b"".to_vec();
    let r = add_names(&font, &file, InstanceMode::Default, &mut pattern);
    assert!(matches!(r, Err(NameAddingError::NoFamilyName)));

    let mut pattern2 = Vec::new();
    let slashes = b"///".to_vec();
    let r2 = add_names(&font, &slashes, InstanceMode::Default, &mut pattern2);
    assert!(matches!(r2, Err(NameAddingError::NoFamilyName)));
}

#[test]
fn fallback_family_ignores_trailing_separators() {
    let font = font_with_records(vec![]);
    let mut pattern = Vec::new();
    let file = b"/fonts/sub/".to_vec();
    assert!(add_names(&font, &file, InstanceMode::Default, &mut pattern).is_ok());
    assert_eq!(text_values(&pattern, ObjectKey::Family), vec![b"sub".to_vec()]);
}

#[test]
fn nul_valued_records_are_dropped() {
    let font = font_with_records(vec![
        rec(1, Some("en"), "Bro\0ken"),
        rec(1, Some("de"), "Example"),
    ]);
    let mut pattern = Vec::new();
    let file = b"/fonts/example.ttf".to_vec();
    assert!(add_names(&font, &file, InstanceMode::Default, &mut pattern).is_ok());
    assert_eq!(text_values(&pattern, ObjectKey::Family), vec![b"Example".to_vec()]);
}

#[test]
fn error_messages_name_the_cause() {
    assert_eq!(
        NameAddingError::NoFamilyName.message(),
        "Could not determine font family name.",
    );
    assert_eq!(NameAddingError::NoNameTable.message(), "Font has no 'name' table.");
}

#[test]
fn language_tags_normalize() {
    assert_eq!(normalize_language(&Some(b"en-US".to_vec())), b"en".to_vec());
    assert_eq!(normalize_language(&Some(b"ZH-TW".to_vec())), b"zh-tw".to_vec());
    assert_eq!(normalize_language(&Some(b"de".to_vec())), b"de".to_vec());
    assert_eq!(normalize_language(&None), b"und".to_vec());
}

#[test]
fn generic_family_tokens_in_priority_order() {
    assert_eq!(get_generic_family(&b"Foo Sans Mono".to_vec()), GenericFamily::Mono);
    assert_eq!(get_generic_family(&b"Foo Sans".to_vec()), GenericFamily::Sans);
    assert_eq!(get_generic_family(&b"DejaVu SERIF".to_vec()), GenericFamily::Serif);
    assert_eq!(get_generic_family(&b"NotoEmoji".to_vec()), GenericFamily::Emoji);
    assert_eq!(get_generic_family(&b"STIX Math".to_vec()), GenericFamily::Math);
    assert_eq!(get_generic_family(&b"Abc".to_vec()), GenericFamily::Unknown);
}

#[test]
fn generic_family_classification_is_always_emitted() {
    let font = font_with_records(vec![rec(1, Some("en"), "Example Mono")]);
    let mut pattern = Vec::new();
    let file = b"/fonts/example.ttf".to_vec();
    assert!(add_names(&font, &file, InstanceMode::Default, &mut pattern).is_ok());
    assert_eq!(
        pattern.last().unwrap(),
        &PatternElement {
            object: ObjectKey::GenericFamily,
            value: AttributeValue::Generic(GenericFamily::Mono),
        },
    );

    let font2 = font_with_records(vec![rec(1, Some("en"), "Example")]);
    let mut pattern2 = Vec::new();
    assert!(add_names(&font2, &file, InstanceMode::Default, &mut pattern2).is_ok());
    assert_eq!(
        pattern2.last().unwrap(),
        &PatternElement {
            object: ObjectKey::GenericFamily,
            value: AttributeValue::Generic(GenericFamily::Unknown),
        },
    );
}

#[test]
fn postscript_record_values_lose_spaces() {
    let font = font_with_records(vec![
        rec(1, Some("en"), "Example"),
        rec(6, Some("en"), "Example Regular PS"),
    ]);
    let mut pattern = Vec::new();
    let file = b"/fonts/example.ttf".to_vec();
    assert!(add_names(&font, &file, InstanceMode::Default, &mut pattern).is_ok());
    assert_eq!(
        text_values(&pattern, ObjectKey::PostscriptName),
        vec![b"ExampleRegularPS".to_vec()],
    );
}
