//! Instance-enumerator tests.

use fc_fontations::font::{Axis, FontHandle, InstanceRecord, SlantStyle};
use fc_fontations::instance_enumerate::{all_instances, InstanceMode};

fn bare_font() -> FontHandle {
    FontHandle {
        tables: vec![],
        prep_len: None,
        cff_major: None,
        os2_weight_class: None,
        os2_width_class: None,
        attr_weight: 400,
        attr_width_class: 5,
        attr_style: SlantStyle::Roman,
        axes: vec![],
        instances: vec![],
        name_records: Some(vec![]),
        default_advances: vec![],
        is_symbol: false,
        font_version: None,
        foundry: None,
        capabilities: None,
    }
}

fn wght_axis() -> Axis {
    Axis { tag: 0x77676874, min: 100 << 16, def: 400 << 16, max: 900 << 16 }
}

fn instance_at(wght: i64) -> InstanceRecord {
    InstanceRecord {
        coords: vec![wght],
        subfamily_name_id: 257,
        postscript_name_id: None,
        advances: vec![],
    }
}

#[test]
fn no_axes_yields_default_only() {
    let font = bare_font();
    assert_eq!(all_instances(&font), vec![InstanceMode::Default]);
}

#[test]
fn axes_and_instances_yield_fixed_order() {
    let mut font = bare_font();
    font.axes = vec![wght_axis()];
    font.instances = vec![instance_at(400 << 16), instance_at(700 << 16)];
    assert_eq!(
        all_instances(&font),
        vec![
            InstanceMode::Default,
            InstanceMode::Named(0),
            InstanceMode::Named(1),
            InstanceMode::Variable,
        ],
    );
}

#[test]
fn axes_without_instances_still_yield_variable() {
    let mut font = bare_font();
    font.axes = vec![wght_axis()];
    assert_eq!(
        all_instances(&font),
        vec![InstanceMode::Default, InstanceMode::Variable],
    );
}
