//! Attribute-mapper tests: weight, width, slant and size derivation with
//! their source precedence, and the style elements of each instance mode.

use fc_fontations::attributes::{append_style_elements, AttributesToPattern};
use fc_fontations::font::{Axis, FontHandle, InstanceRecord, SlantStyle};
use fc_fontations::instance_enumerate::InstanceMode;
use fc_fontations::values::{AttributeValue, ObjectKey, PatternElement};

const FX: i64 = 65536;

fn bare_font() -> FontHandle {
    FontHandle {
        tables: vec![],
        prep_len: None,
        cff_major: None,
        os2_weight_class: None,
        os2_width_class: None,
        attr_weight: 400,
        attr_width_class: 5,
        attr_style: SlantStyle::Roman,
        axes: vec![],
        instances: vec![],
        name_records: Some(vec![]),
        default_advances: vec![],
        is_symbol: false,
        font_version: None,
        foundry: None,
        capabilities: None,
    }
}

fn wght_axis() -> Axis {
    Axis { tag: 0x77676874, min: 100 * FX, def: 400 * FX, max: 900 * FX }
}

fn opsz_axis() -> Axis {
    Axis { tag: 0x6F70737A, min: 8 * FX, def: 12 * FX, max: 72 * FX }
}

fn elem(object: ObjectKey, value: AttributeValue) -> PatternElement {
    PatternElement { object, value }
}

#[test]
fn os2_weight_converts_on_the_standard_scale() {
    let mut font = bare_font();

    font.os2_weight_class = Some(400);
    let conv = AttributesToPattern::new(&font, &InstanceMode::Default);
    assert_eq!(conv.static_weight(), elem(ObjectKey::Weight, AttributeValue::Scalar(80 * FX)));

    font.os2_weight_class = Some(500);
    let conv = AttributesToPattern::new(&font, &InstanceMode::Default);
    assert_eq!(conv.static_weight(), elem(ObjectKey::Weight, AttributeValue::Scalar(100 * FX)));

    // Interpolation between the 400 and 500 anchors.
    font.os2_weight_class = Some(450);
    let conv = AttributesToPattern::new(&font, &InstanceMode::Default);
    assert_eq!(conv.static_weight(), elem(ObjectKey::Weight, AttributeValue::Scalar(90 * FX)));

    // Clamped to the top anchor.
    font.os2_weight_class = Some(2000);
    let conv = AttributesToPattern::new(&font, &InstanceMode::Default);
    assert_eq!(conv.static_weight(), elem(ObjectKey::Weight, AttributeValue::Scalar(215 * FX)));
}

#[test]
fn weight_interpolation_keeps_fractions() {
    let mut font = bare_font();
    // Between the 380 and 400 anchors the scale passes through 77.5.
    font.os2_weight_class = Some(390);
    let conv = AttributesToPattern::new(&font, &InstanceMode::Default);
    assert_eq!(
        conv.static_weight(),
        elem(ObjectKey::Weight, AttributeValue::Scalar(77 * FX + FX / 2)),
    );
}

#[test]
fn style_metadata_is_the_weight_fallback() {
    let mut font = bare_font();
    font.attr_weight = 700;
    let conv = AttributesToPattern::new(&font, &InstanceMode::Default);
    assert_eq!(conv.static_weight(), elem(ObjectKey::Weight, AttributeValue::Scalar(200 * FX)));

    // An unlisted class falls back to medium.
    font.attr_weight = 437;
    let conv = AttributesToPattern::new(&font, &InstanceMode::Default);
    assert_eq!(conv.static_weight(), elem(ObjectKey::Weight, AttributeValue::Scalar(100 * FX)));
}

#[test]
fn width_classes_map_through_the_nine_step_table() {
    let mut font = bare_font();
    font.os2_width_class = Some(1);
    let conv = AttributesToPattern::new(&font, &InstanceMode::Default);
    assert_eq!(conv.static_width(), elem(ObjectKey::Width, AttributeValue::Scalar(50 * FX)));

    font.os2_width_class = Some(9);
    let conv = AttributesToPattern::new(&font, &InstanceMode::Default);
    assert_eq!(conv.static_width(), elem(ObjectKey::Width, AttributeValue::Scalar(200 * FX)));

    font.os2_width_class = None;
    font.attr_width_class = 7;
    let conv = AttributesToPattern::new(&font, &InstanceMode::Default);
    assert_eq!(conv.static_width(), elem(ObjectKey::Width, AttributeValue::Scalar(125 * FX)));
}

#[test]
fn static_slant_follows_style_metadata() {
    let mut font = bare_font();
    let conv = AttributesToPattern::new(&font, &InstanceMode::Default);
    assert_eq!(conv.static_slant(), elem(ObjectKey::Slant, AttributeValue::Int(0)));

    font.attr_style = SlantStyle::Italic;
    let conv = AttributesToPattern::new(&font, &InstanceMode::Default);
    assert_eq!(conv.static_slant(), elem(ObjectKey::Slant, AttributeValue::Int(100)));

    font.attr_style = SlantStyle::Oblique;
    let conv = AttributesToPattern::new(&font, &InstanceMode::Default);
    assert_eq!(conv.static_slant(), elem(ObjectKey::Slant, AttributeValue::Int(110)));
}

#[test]
fn instance_coordinates_take_precedence() {
    let mut font = bare_font();
    font.axes = vec![wght_axis()];
    font.instances = vec![InstanceRecord {
        coords: vec![550 * FX],
        subfamily_name_id: 257,
        postscript_name_id: None,
        advances: vec![],
    }];
    let conv = AttributesToPattern::new(&font, &InstanceMode::Named(0));
    assert_eq!(
        conv.instance_weight(),
        Some(elem(ObjectKey::Weight, AttributeValue::Scalar(140 * FX))),
    );
    assert_eq!(conv.instance_width(), None);
    assert_eq!(conv.instance_slant(), None);
}

#[test]
fn negative_instance_slant_means_italic() {
    let mut font = bare_font();
    font.axes = vec![Axis { tag: 0x736C6E74, min: -12 * FX, def: 0, max: 0 }];
    font.instances = vec![
        InstanceRecord {
            coords: vec![-10 * FX],
            subfamily_name_id: 257,
            postscript_name_id: None,
            advances: vec![],
        },
        InstanceRecord {
            coords: vec![0],
            subfamily_name_id: 258,
            postscript_name_id: None,
            advances: vec![],
        },
    ];
    let conv = AttributesToPattern::new(&font, &InstanceMode::Named(0));
    assert_eq!(
        conv.instance_slant(),
        Some(elem(ObjectKey::Slant, AttributeValue::Int(100))),
    );
    let conv = AttributesToPattern::new(&font, &InstanceMode::Named(1));
    assert_eq!(
        conv.instance_slant(),
        Some(elem(ObjectKey::Slant, AttributeValue::Int(0))),
    );
}

#[test]
fn variable_ranges_convert_their_extremes() {
    let mut font = bare_font();
    font.axes = vec![wght_axis(), opsz_axis()];
    let conv = AttributesToPattern::new(&font, &InstanceMode::Variable);
    assert_eq!(
        conv.variable_weight(),
        Some(elem(ObjectKey::Weight, AttributeValue::Range(0, 210 * FX))),
    );
    assert_eq!(conv.variable_width(), None);
    assert_eq!(
        conv.variable_opsz(),
        Some(elem(ObjectKey::Size, AttributeValue::Range(8 * FX, 72 * FX))),
    );
    assert_eq!(
        conv.default_size(),
        Some(elem(ObjectKey::Size, AttributeValue::Scalar(12 * FX))),
    );
}

#[test]
fn named_instance_index_packs_into_the_high_half() {
    let mut font = bare_font();
    font.axes = vec![wght_axis()];
    font.instances = vec![InstanceRecord {
        coords: vec![700 * FX],
        subfamily_name_id: 257,
        postscript_name_id: None,
        advances: vec![],
    }];
    let mut pattern = Vec::new();
    append_style_elements(&font, InstanceMode::Named(0), Some(3), &mut pattern);
    assert!(pattern.contains(&elem(ObjectKey::Index, AttributeValue::Int(3 + (1 << 16)))));
    assert!(pattern.contains(&elem(ObjectKey::NamedInstance, AttributeValue::Boolean(true))));
}

#[test]
fn default_mode_style_elements_in_order() {
    let mut font = bare_font();
    font.os2_weight_class = Some(400);
    font.os2_width_class = Some(5);
    font.default_advances = vec![10 * FX, 10 * FX];
    let mut pattern = Vec::new();
    append_style_elements(&font, InstanceMode::Default, None, &mut pattern);
    assert_eq!(
        pattern,
        vec![
            elem(ObjectKey::Spacing, AttributeValue::Int(100)),
            elem(ObjectKey::Weight, AttributeValue::Scalar(80 * FX)),
            elem(ObjectKey::Width, AttributeValue::Scalar(100 * FX)),
            elem(ObjectKey::Slant, AttributeValue::Int(0)),
            elem(ObjectKey::Variable, AttributeValue::Boolean(false)),
            elem(ObjectKey::Index, AttributeValue::Int(0)),
            elem(ObjectKey::NamedInstance, AttributeValue::Boolean(false)),
        ],
    );
}

#[test]
fn variable_mode_falls_back_to_static_values() {
    let mut font = bare_font();
    font.os2_weight_class = Some(700);
    font.os2_width_class = Some(5);
    font.axes = vec![opsz_axis()];
    let mut pattern = Vec::new();
    append_style_elements(&font, InstanceMode::Variable, None, &mut pattern);
    assert_eq!(
        pattern,
        vec![
            elem(ObjectKey::Weight, AttributeValue::Scalar(200 * FX)),
            elem(ObjectKey::Width, AttributeValue::Scalar(100 * FX)),
            elem(ObjectKey::Size, AttributeValue::Range(8 * FX, 72 * FX)),
            elem(ObjectKey::Variable, AttributeValue::Boolean(true)),
            elem(ObjectKey::Index, AttributeValue::Int(0)),
            elem(ObjectKey::NamedInstance, AttributeValue::Boolean(false)),
            elem(ObjectKey::Slant, AttributeValue::Int(0)),
        ],
    );
}

#[test]
fn named_instance_advances_drive_its_spacing() {
    let mut font = bare_font();
    font.axes = vec![wght_axis()];
    font.default_advances = vec![10 * FX, 15 * FX];
    font.instances = vec![InstanceRecord {
        coords: vec![700 * FX],
        subfamily_name_id: 257,
        postscript_name_id: None,
        advances: vec![12 * FX, 24 * FX],
    }];
    let conv = AttributesToPattern::new(&font, &InstanceMode::Default);
    assert_eq!(conv.spacing(), None);
    let conv = AttributesToPattern::new(&font, &InstanceMode::Named(0));
    assert_eq!(
        conv.spacing(),
        Some(elem(ObjectKey::Spacing, AttributeValue::Int(90))),
    );
}

#[test]
fn nonpositive_advances_are_skipped() {
    let mut font = bare_font();
    font.default_advances = vec![0, -3 * FX, 10 * FX, 0, 10 * FX];
    let conv = AttributesToPattern::new(&font, &InstanceMode::Default);
    assert_eq!(
        conv.spacing(),
        Some(elem(ObjectKey::Spacing, AttributeValue::Int(100))),
    );
}
