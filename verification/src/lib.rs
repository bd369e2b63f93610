//! Descriptor extraction for parsed font binaries.
//!
//! Given a plain-value view of one font (its table tags, style classes,
//! variation axes, named instances, name records and glyph advances), the
//! engine enumerates the instance modes the font must be represented as,
//! derives numeric style attributes with a fixed source precedence,
//! resolves and deduplicates name strings, classifies glyph spacing, and
//! assembles one descriptor per instance mode.

pub mod attributes;
pub mod bytestr;
pub mod font;
pub mod instance_enumerate;
pub mod names;
pub mod scale;
pub mod values;

use crate::attributes::{append_style_elements, instance_for_mode_spec, opt_seq,
    spacing_elem_spec, style_elems_spec};
use crate::font::{FontHandle, TAG_CBLC, TAG_CFF, TAG_CFF2, TAG_COLR, TAG_CVT, TAG_FPGM, TAG_GLYF,
    TAG_SBIX, TAG_SVG};
use crate::instance_enumerate::{all_instances, all_instances_spec, InstanceMode};
use crate::names::{add_names, add_names_elems, add_names_result};
use crate::values::{bool_elem, clone_elems, int_elem, push_elem, text_elem, AttributeValue,
    ElemView, ObjectKey, PatternElement};
use vstd::prelude::*;

verus! {

/// Whether the font has a table with one of the given tags.
pub open spec fn has_one_of_spec(font: FontHandle, tags: Seq<u32>) -> bool {
    exists|j: int| 0 <= j < tags.len() && font.tables@.contains(#[trigger] tags[j])
}

/// Executable form of [`has_one_of_spec`].
pub fn has_one_of_tables(font: &FontHandle, tags: &[u32]) -> (r: bool)
    ensures
        r == has_one_of_spec(*font, tags@),
{
    let mut j: usize = 0;
    while j < tags.len()
        invariant
            0 <= j <= tags@.len(),
            forall|k: int| 0 <= k < j ==> !font.tables@.contains(#[trigger] tags@[k]),
        decreases tags@.len() - j,
    {
        if font.has_table(tags[j]) {
            return true;
        }
        j = j + 1;
    }
    proof {
        if has_one_of_spec(*font, tags@) {
            let w = choose|w: int|
                0 <= w < tags@.len() && font.tables@.contains(#[trigger] tags@[w]);
            assert(!font.tables@.contains(tags@[w]));
        }
    }
    false
}

/// Whether the font carries real hinting: an `fpgm` or `cvt ` table, or
/// a `prep` program longer than 7 bytes (a trivial `prep` program is not
/// real hinting).
pub open spec fn has_hint_spec(font: FontHandle) -> bool {
    has_one_of_spec(font, seq![TAG_FPGM, TAG_CVT]) || match font.prep_len {
        Some(l) => l > 7,
        None => false,
    }
}

/// Executable form of [`has_hint_spec`].
pub fn has_hint(font: &FontHandle) -> (r: bool)
    ensures
        r == has_hint_spec(*font),
{
    let hint_tags: [u32; 2] = [TAG_FPGM, TAG_CVT];
    proof {
        assert(hint_tags@ =~= seq![TAG_FPGM, TAG_CVT]);
    }
    if has_one_of_tables(font, hint_tags.as_slice()) {
        return true;
    }
    match font.prep_len {
        Some(l) => l > 7,
        None => false,
    }
}

/// Appends the file-name element.
pub fn add_font_file_name(pattern: &mut Vec<PatternElement>, font_file: &Vec<u8>)
    ensures
        final(pattern).deep_view() == old(pattern).deep_view().push(
            text_elem(ObjectKey::File, font_file@),
        ),
{
    let path = crate::bytestr::copy_bytes(font_file.as_slice());
    push_elem(
        &mut *pattern,
        PatternElement { object: ObjectKey::File, value: AttributeValue::Text(path) },
    );
}

/// The wrapper tag of a compressed container, from its magic bytes.
pub open spec fn woff_wrapper_spec(bytes: Seq<u8>) -> Option<Seq<u8>> {
    if bytes.len() >= 4 {
        let m = bytes.subrange(0, 4);
        if m == seq![119u8, 79u8, 70u8, 70u8] {
            Some(seq![87u8, 79u8, 70u8, 70u8])
        } else if m == seq![119u8, 79u8, 70u8, 50u8] {
            Some(seq![87u8, 79u8, 70u8, 70u8, 50u8])
        } else {
            None
        }
    } else {
        None
    }
}

/// The wrapper-only descriptor for a compressed container this engine
/// cannot decode natively: its wrapper tag and file name, when the magic
/// bytes identify one.
pub open spec fn woff_pattern_spec(bytes: Seq<u8>, file: Seq<u8>) -> Option<Seq<ElemView>> {
    match woff_wrapper_spec(bytes) {
        Some(w) => Some(
            seq![text_elem(ObjectKey::FontWrapper, w), text_elem(ObjectKey::File, file)],
        ),
        None => None,
    }
}

/// Builds the wrapper-only descriptor for a compressed container, when
/// the file's magic bytes identify one.
pub fn build_woff_pattern(bytes: &Vec<u8>, font_file: &Vec<u8>) -> (r: Option<Vec<PatternElement>>)
    ensures
        match r {
            Some(p) => woff_pattern_spec(bytes@, font_file@) == Some(p.deep_view()),
            None => woff_pattern_spec(bytes@, font_file@) is None,
        },
{
    if bytes.len() < 4 {
        return None;
    }
    let magic_woff: [u8; 4] = [119, 79, 70, 70];
    let magic_wof2: [u8; 4] = [119, 79, 70, 50];
    let mut head: Vec<u8> = Vec::new();
    head.push(bytes[0]);
    head.push(bytes[1]);
    head.push(bytes[2]);
    head.push(bytes[3]);
    proof {
        assert(head@ =~= bytes@.subrange(0, 4));
        assert(magic_woff@ =~= seq![119u8, 79u8, 70u8, 70u8]);
        assert(magic_wof2@ =~= seq![119u8, 79u8, 70u8, 50u8]);
    }
    let wrapper: Vec<u8> = if crate::bytestr::bytes_eq(head.as_slice(), magic_woff.as_slice()) {
        let mut w: Vec<u8> = Vec::new();
        w.push(87);
        w.push(79);
        w.push(70);
        w.push(70);
        proof {
            assert(w@ =~= seq![87u8, 79u8, 70u8, 70u8]);
        }
        w
    } else if crate::bytestr::bytes_eq(head.as_slice(), magic_wof2.as_slice()) {
        let mut w: Vec<u8> = Vec::new();
        w.push(87);
        w.push(79);
        w.push(70);
        w.push(70);
        w.push(50);
        proof {
            assert(w@ =~= seq![87u8, 79u8, 70u8, 70u8, 50u8]);
        }
        w
    } else {
        return None;
    };
    let mut pattern: Vec<PatternElement> = Vec::new();
    push_elem(
        &mut pattern,
        PatternElement { object: ObjectKey::FontWrapper, value: AttributeValue::Text(wrapper) },
    );
    add_font_file_name(&mut pattern, font_file);
    proof {
        assert(woff_pattern_spec(bytes@, font_file@) is Some);
        assert(pattern.deep_view() =~= woff_pattern_spec(bytes@, font_file@).unwrap());
    }
    Some(pattern)
}

/// Whether the font is rejected outright: it carries a CFF table whose
/// header does not report major version 1 (or could not be read at all).
pub open spec fn cff_rejected_spec(font: FontHandle) -> bool {
    font.tables@.contains(TAG_CFF) && font.cff_major != Some(1u8)
}

/// The format tag of a font: CFF-flavored fonts are `CFF`, all others
/// `TrueType`.
pub open spec fn format_tag_spec(font: FontHandle) -> Seq<u8> {
    if has_one_of_spec(font, seq![TAG_CFF]) || has_one_of_spec(font, seq![TAG_CFF2]) {
        seq![67u8, 70u8, 70u8]
    } else {
        seq![84u8, 114u8, 117u8, 101u8, 84u8, 121u8, 112u8, 101u8]
    }
}

/// The foundry string, falling back to `unknown`.
pub open spec fn foundry_spec(font: FontHandle) -> Seq<u8> {
    match font.foundry {
        Some(f) => f@,
        None => seq![117u8, 110u8, 107u8, 110u8, 111u8, 119u8, 110u8],
    }
}

/// The font revision, as raw 16.16 bits, zero when absent.
pub open spec fn version_spec(font: FontHandle) -> int {
    match font.font_version {
        Some(v) => v as int,
        None => 0,
    }
}

/// The capability element, when a capability string exists.
pub open spec fn capability_seq_spec(font: FontHandle) -> Seq<ElemView> {
    match font.capabilities {
        Some(c) => seq![text_elem(ObjectKey::Capability, c@)],
        None => Seq::empty(),
    }
}

/// The font-wide elements every instance mode's descriptor starts with:
/// outline, color and scalability flags, the hinting flag, format tag,
/// foundry, symbol flag, capabilities when present, file name, wrapper
/// tag, font revision and order.
pub open spec fn base_elems_spec(font: FontHandle, file: Seq<u8>) -> Seq<ElemView> {
    let has_outlines = has_one_of_spec(font, seq![TAG_GLYF]) || has_one_of_spec(
        font,
        seq![TAG_CFF],
    ) || has_one_of_spec(font, seq![TAG_CFF2]);
    let has_color = has_one_of_spec(font, seq![TAG_COLR, TAG_SVG, TAG_CBLC, TAG_SBIX]);
    seq![
        bool_elem(ObjectKey::Outline, has_outlines),
        bool_elem(ObjectKey::Color, has_color),
        bool_elem(ObjectKey::Scalable, has_outlines || has_color),
        bool_elem(ObjectKey::FontHasHint, has_hint_spec(font)),
        text_elem(ObjectKey::FontFormat, format_tag_spec(font)),
        text_elem(ObjectKey::Foundry, foundry_spec(font)),
        bool_elem(ObjectKey::Symbol, font.is_symbol),
    ] + capability_seq_spec(font) + seq![
        text_elem(ObjectKey::File, file),
        text_elem(ObjectKey::FontWrapper, seq![83u8, 70u8, 78u8, 84u8]),
        int_elem(ObjectKey::FontVersion, version_spec(font)),
        int_elem(ObjectKey::Order, 0),
    ]
}

/// The descriptor of one instance mode, when name resolution succeeds
/// for it: the font-wide base, the mode's name attributes, then its
/// style attributes.
pub open spec fn pattern_for_mode_spec(
    font: FontHandle,
    file: Seq<u8>,
    ttc: Option<i32>,
    base: Seq<ElemView>,
    mode: InstanceMode,
) -> Option<Seq<ElemView>> {
    if add_names_result(font, file, mode, base) is Ok {
        Some(add_names_elems(font, file, mode, base) + style_elems_spec(font, mode, ttc))
    } else {
        None
    }
}

/// A sequence holding an optional descriptor.
pub open spec fn opt_pattern(o: Option<Seq<ElemView>>) -> Seq<Seq<ElemView>> {
    match o {
        Some(d) => seq![d],
        None => Seq::empty(),
    }
}

/// The descriptors of a mode list, in order, skipping the modes whose
/// name resolution fails.
pub open spec fn patterns_for_modes_spec(
    font: FontHandle,
    file: Seq<u8>,
    ttc: Option<i32>,
    base: Seq<ElemView>,
    modes: Seq<InstanceMode>,
) -> Seq<Seq<ElemView>>
    decreases modes.len(),
{
    if modes.len() == 0 {
        Seq::empty()
    } else {
        patterns_for_modes_spec(font, file, ttc, base, modes.drop_last()) + opt_pattern(
            pattern_for_mode_spec(font, file, ttc, base, modes.last()),
        )
    }
}

/// The full extraction result for one font: no descriptors at all when
/// the CFF check rejects it, else one descriptor per instance mode whose
/// name resolution succeeds, in instance-mode order.
pub open spec fn build_patterns_spec(
    font: FontHandle,
    file: Seq<u8>,
    ttc: Option<i32>,
) -> Seq<Seq<ElemView>> {
    if cff_rejected_spec(font) {
        Seq::empty()
    } else {
        patterns_for_modes_spec(
            font,
            file,
            ttc,
            base_elems_spec(font, file),
            all_instances_spec(font),
        )
    }
}

/// Extracts the descriptors of one font: a CFF-flavored font whose CFF
/// header does not report major version 1 yields no descriptors at all;
/// otherwise each instance mode contributes one descriptor built from the
/// font-wide base, its resolved names and its style attributes, and a
/// mode whose name resolution fails is skipped without aborting the rest.
pub fn build_patterns_for_font(
    font: &FontHandle,
    font_file: &Vec<u8>,
    ttc_index: Option<i32>,
) -> (r: Vec<Vec<PatternElement>>)
    requires
        font.wf(),
    ensures
        r.deep_view() == build_patterns_spec(*font, font_file@, ttc_index),
        cff_rejected_spec(*font) ==> r.deep_view() == Seq::<Seq<ElemView>>::empty(),
{
    let glyf_tags: [u32; 1] = [TAG_GLYF];
    let cff_tags: [u32; 1] = [TAG_CFF];
    let cff2_tags: [u32; 1] = [TAG_CFF2];
    let color_tags: [u32; 4] = [TAG_COLR, TAG_SVG, TAG_CBLC, TAG_SBIX];
    proof {
        assert(glyf_tags@ =~= seq![TAG_GLYF]);
        assert(cff_tags@ =~= seq![TAG_CFF]);
        assert(cff2_tags@ =~= seq![TAG_CFF2]);
        assert(color_tags@ =~= seq![TAG_COLR, TAG_SVG, TAG_CBLC, TAG_SBIX]);
    }
    let has_glyf = has_one_of_tables(font, glyf_tags.as_slice());
    let has_cff1 = has_one_of_tables(font, cff_tags.as_slice());
    let has_cff2 = has_one_of_tables(font, cff2_tags.as_slice());
    let has_cff = has_cff1 || has_cff2;
    let has_color = has_one_of_tables(font, color_tags.as_slice());

    if has_cff1 {
        proof {
            let w = choose|w: int|
                0 <= w < seq![TAG_CFF].len() && font.tables@.contains(#[trigger] seq![TAG_CFF][w]);
            assert(font.tables@.contains(TAG_CFF));
        }
        let rejected = match font.cff_major {
            Some(m) => m != 1,
            None => true,
        };
        if rejected {
            let r: Vec<Vec<PatternElement>> = Vec::new();
            proof {
                assert(cff_rejected_spec(*font));
                assert(r.deep_view() =~= Seq::<Seq<ElemView>>::empty());
            }
            return r;
        }
    }
    proof {
        if font.tables@.contains(TAG_CFF) {
            assert(seq![TAG_CFF][0] == TAG_CFF);
            assert(has_one_of_spec(*font, seq![TAG_CFF]));
        }
        assert(!cff_rejected_spec(*font));
    }

    let has_outlines = has_glyf || has_cff;

    let mut pattern: Vec<PatternElement> = Vec::new();
    push_elem(
        &mut pattern,
        PatternElement { object: ObjectKey::Outline, value: AttributeValue::Boolean(has_outlines) },
    );
    push_elem(
        &mut pattern,
        PatternElement { object: ObjectKey::Color, value: AttributeValue::Boolean(has_color) },
    );
    push_elem(
        &mut pattern,
        PatternElement {
            object: ObjectKey::Scalable,
            value: AttributeValue::Boolean(has_outlines || has_color),
        },
    );
    push_elem(
        &mut pattern,
        PatternElement {
            object: ObjectKey::FontHasHint,
            value: AttributeValue::Boolean(has_hint(font)),
        },
    );
    let format: Vec<u8> = if has_cff {
        let mut f: Vec<u8> = Vec::new();
        f.push(67);
        f.push(70);
        f.push(70);
        proof {
            assert(f@ =~= format_tag_spec(*font));
        }
        f
    } else {
        let mut f: Vec<u8> = Vec::new();
        f.push(84);
        f.push(114);
        f.push(117);
        f.push(101);
        f.push(84);
        f.push(121);
        f.push(112);
        f.push(101);
        proof {
            assert(f@ =~= format_tag_spec(*font));
        }
        f
    };
    push_elem(
        &mut pattern,
        PatternElement { object: ObjectKey::FontFormat, value: AttributeValue::Text(format) },
    );
    let foundry: Vec<u8> = match &font.foundry {
        Some(f) => crate::bytestr::copy_bytes(f.as_slice()),
        None => {
            let mut f: Vec<u8> = Vec::new();
            f.push(117);
            f.push(110);
            f.push(107);
            f.push(110);
            f.push(111);
            f.push(119);
            f.push(110);
            proof {
                assert(f@ =~= foundry_spec(*font));
            }
            f
        },
    };
    push_elem(
        &mut pattern,
        PatternElement { object: ObjectKey::Foundry, value: AttributeValue::Text(foundry) },
    );
    push_elem(
        &mut pattern,
        PatternElement {
            object: ObjectKey::Symbol,
            value: AttributeValue::Boolean(font.is_symbol),
        },
    );
    match &font.capabilities {
        Some(c) => {
            let caps = crate::bytestr::copy_bytes(c.as_slice());
            push_elem(
                &mut pattern,
                PatternElement {
                    object: ObjectKey::Capability,
                    value: AttributeValue::Text(caps),
                },
            );
        },
        None => {},
    }
    add_font_file_name(&mut pattern, font_file);
    let mut wrapper: Vec<u8> = Vec::new();
    wrapper.push(83);
    wrapper.push(70);
    wrapper.push(78);
    wrapper.push(84);
    proof {
        assert(wrapper@ =~= seq![83u8, 70u8, 78u8, 84u8]);
    }
    push_elem(
        &mut pattern,
        PatternElement { object: ObjectKey::FontWrapper, value: AttributeValue::Text(wrapper) },
    );
    let version: i64 = match font.font_version {
        Some(v) => v as i64,
        None => 0,
    };
    push_elem(
        &mut pattern,
        PatternElement { object: ObjectKey::FontVersion, value: AttributeValue::Int(version) },
    );
    push_elem(
        &mut pattern,
        PatternElement { object: ObjectKey::Order, value: AttributeValue::Int(0) },
    );
    proof {
        assert(pattern.deep_view() =~= base_elems_spec(*font, font_file@));
    }
    let ghost basev = base_elems_spec(*font, font_file@);

    let modes = all_instances(font);
    let mut out: Vec<Vec<PatternElement>> = Vec::new();
    proof {
        assert(modes@.take(0) =~= Seq::<InstanceMode>::empty());
        assert(out.deep_view() =~= Seq::<Seq<ElemView>>::empty());
    }
    let mut i: usize = 0;
    while i < modes.len()
        invariant
            0 <= i <= modes@.len(),
            font.wf(),
            modes@ == all_instances_spec(*font),
            pattern.deep_view() == basev,
            basev == base_elems_spec(*font, font_file@),
            out.deep_view() == patterns_for_modes_spec(
                *font,
                font_file@,
                ttc_index,
                basev,
                modes@.take(i as int),
            ),
        decreases modes@.len() - i,
    {
        let instance_mode = modes[i];
        let mut instance_pattern = clone_elems(&pattern);
        match add_names(font, font_file, instance_mode, &mut instance_pattern) {
            Ok(()) => {
                append_style_elements(font, instance_mode, ttc_index, &mut instance_pattern);
                let ghost d = instance_pattern.deep_view();
                out.push(instance_pattern);
                proof {
                    assert(out.deep_view() =~= patterns_for_modes_spec(
                        *font,
                        font_file@,
                        ttc_index,
                        basev,
                        modes@.take(i as int),
                    ).push(d));
                    assert(modes@.take(i + 1).drop_last() =~= modes@.take(i as int));
                    assert(modes@.take(i + 1).last() == modes@[i as int]);
                }
            },
            Err(_) => {
                proof {
                    assert(modes@.take(i + 1).drop_last() =~= modes@.take(i as int));
                    assert(modes@.take(i + 1).last() == modes@[i as int]);
                }
            },
        }
        i = i + 1;
    }
    proof {
        assert(modes@.take(modes@.len() as int) =~= modes@);
        assert(out.deep_view() == build_patterns_spec(*font, font_file@, ttc_index));
    }
    out
}

/// Law of round-trip idempotence: extraction is a function of the font
/// handle alone, so two extraction passes over the same handle yield
/// identical descriptor sequences.
pub proof fn lemma_extraction_idempotent(
    font: FontHandle,
    file: Seq<u8>,
    ttc: Option<i32>,
    r1: Seq<Seq<ElemView>>,
    r2: Seq<Seq<ElemView>>,
)
    requires
        r1 == build_patterns_spec(font, file, ttc),
        r2 == build_patterns_spec(font, file, ttc),
    ensures
        r1 == r2,
{
}


/// The descriptor one instance mode yields when its name resolution
/// succeeds: the font-wide base, the mode's names, then its style
/// elements.
pub open spec fn mode_descriptor(
    font: FontHandle,
    file: Seq<u8>,
    ttc: Option<i32>,
    mode: InstanceMode,
) -> Seq<ElemView> {
    add_names_elems(font, file, mode, base_elems_spec(font, file)) + style_elems_spec(
        font,
        mode,
        ttc,
    )
}

/// Name resolution succeeds for every mode the font enumerates.
pub open spec fn names_ok_for_all_modes(font: FontHandle, file: Seq<u8>) -> bool {
    forall|i: int|
        0 <= i < all_instances_spec(font).len() ==> add_names_result(
            font,
            file,
            #[trigger] all_instances_spec(font)[i],
            base_elems_spec(font, file),
        ) is Ok
}

proof fn lemma_patterns_all_ok(
    font: FontHandle,
    file: Seq<u8>,
    ttc: Option<i32>,
    base: Seq<ElemView>,
    modes: Seq<InstanceMode>,
)
    requires
        forall|i: int|
            0 <= i < modes.len() ==> add_names_result(font, file, #[trigger] modes[i], base) is Ok,
    ensures
        patterns_for_modes_spec(font, file, ttc, base, modes).len() == modes.len(),
        forall|i: int|
            0 <= i < modes.len() ==> patterns_for_modes_spec(font, file, ttc, base, modes)[i]
                == add_names_elems(font, file, #[trigger] modes[i], base) + style_elems_spec(
                font,
                modes[i],
                ttc,
            ),
    decreases modes.len(),
{
    if modes.len() == 0 {
    } else {
        let pre = modes.drop_last();
        assert forall|i: int|
            0 <= i < pre.len() implies add_names_result(font, file, #[trigger] pre[i], base)
            is Ok by {
            assert(pre[i] == modes[i]);
        }
        lemma_patterns_all_ok(font, file, ttc, base, pre);
        let mlast = modes.last();
        assert(modes[modes.len() - 1] == mlast);
        assert(add_names_result(font, file, mlast, base) is Ok);
        let d = add_names_elems(font, file, mlast, base) + style_elems_spec(font, mlast, ttc);
        assert(pattern_for_mode_spec(font, file, ttc, base, mlast) == Some(d));
        let ps = patterns_for_modes_spec(font, file, ttc, base, modes);
        let psp = patterns_for_modes_spec(font, file, ttc, base, pre);
        assert(ps == psp + seq![d]);
        assert forall|i: int|
            0 <= i < modes.len() implies ps[i] == add_names_elems(
            font,
            file,
            #[trigger] modes[i],
            base,
        ) + style_elems_spec(font, modes[i], ttc) by {
            if i < modes.len() - 1 {
                assert(pre[i] == modes[i]);
                assert(ps[i] == psp[i]);
            } else {
                assert(ps[i] == d);
            }
        }
    }
}

proof fn lemma_default_descriptor_flags(font: FontHandle, file: Seq<u8>, ttc: Option<i32>)
    ensures
        mode_descriptor(font, file, ttc, InstanceMode::Default).last() == bool_elem(
            ObjectKey::NamedInstance,
            false,
        ),
        mode_descriptor(font, file, ttc, InstanceMode::Default).contains(
            bool_elem(ObjectKey::Variable, false),
        ),
{
    let names = add_names_elems(font, file, InstanceMode::Default, base_elems_spec(font, file));
    let sty = style_elems_spec(font, InstanceMode::Default, ttc);
    let sp = opt_seq(spacing_elem_spec(font, instance_for_mode_spec(font, InstanceMode::Default)));
    let d = mode_descriptor(font, file, ttc, InstanceMode::Default);
    assert(sty.len() > 0);
    assert(sty.last() == bool_elem(ObjectKey::NamedInstance, false));
    assert(d.last() == sty.last());
    let k = sp.len() as int + 3;
    assert(sty[k] == bool_elem(ObjectKey::Variable, false));
    assert(d[names.len() + k] == bool_elem(ObjectKey::Variable, false));
    assert(d.contains(bool_elem(ObjectKey::Variable, false)));
}

proof fn lemma_named_descriptor_flag(font: FontHandle, file: Seq<u8>, ttc: Option<i32>, idx: i32)
    ensures
        mode_descriptor(font, file, ttc, InstanceMode::Named(idx)).last() == bool_elem(
            ObjectKey::NamedInstance,
            true,
        ),
{
    let sty = style_elems_spec(font, InstanceMode::Named(idx), ttc);
    let d = mode_descriptor(font, file, ttc, InstanceMode::Named(idx));
    assert(sty.len() > 0);
    assert(sty.last() == bool_elem(ObjectKey::NamedInstance, true));
    assert(d.last() == sty.last());
}

proof fn lemma_variable_descriptor_flag(font: FontHandle, file: Seq<u8>, ttc: Option<i32>)
    ensures
        mode_descriptor(font, file, ttc, InstanceMode::Variable).contains(
            bool_elem(ObjectKey::Variable, true),
        ),
{
    let names = add_names_elems(font, file, InstanceMode::Variable, base_elems_spec(font, file));
    let sty = style_elems_spec(font, InstanceMode::Variable, ttc);
    let sp = opt_seq(
        spacing_elem_spec(font, instance_for_mode_spec(font, InstanceMode::Variable)),
    );
    let oo = opt_seq(crate::attributes::variable_opsz_spec(font));
    let d = mode_descriptor(font, file, ttc, InstanceMode::Variable);
    let k = sp.len() as int + 2 + oo.len() as int;
    assert(sty[k] == bool_elem(ObjectKey::Variable, true));
    assert(d[names.len() + k] == bool_elem(ObjectKey::Variable, true));
    assert(d.contains(bool_elem(ObjectKey::Variable, true)));
}

/// Law: a font with no variation axes yields exactly one descriptor —
/// its default-mode descriptor — which ends with the named-instance flag
/// false and carries the variable flag false. Stated for the inputs on
/// which a descriptor is owed at all: the CFF check does not reject the
/// font and default-mode name resolution succeeds.
pub proof fn lemma_static_font_single_descriptor(font: FontHandle, file: Seq<u8>, ttc: Option<i32>)
    requires
        font.wf(),
        font.axes@.len() == 0,
        !cff_rejected_spec(font),
        add_names_result(font, file, InstanceMode::Default, base_elems_spec(font, file)) is Ok,
    ensures
        build_patterns_spec(font, file, ttc) == seq![
            mode_descriptor(font, file, ttc, InstanceMode::Default),
        ],
        mode_descriptor(font, file, ttc, InstanceMode::Default).last() == bool_elem(
            ObjectKey::NamedInstance,
            false,
        ),
        mode_descriptor(font, file, ttc, InstanceMode::Default).contains(
            bool_elem(ObjectKey::Variable, false),
        ),
{
    let base = base_elems_spec(font, file);
    let modes = all_instances_spec(font);
    assert(font.instances@.len() == 0);
    assert(modes =~= seq![InstanceMode::Default]);
    assert forall|i: int|
        0 <= i < modes.len() implies add_names_result(font, file, #[trigger] modes[i], base)
        is Ok by {
        assert(modes[i] == InstanceMode::Default);
    }
    lemma_patterns_all_ok(font, file, ttc, base, modes);
    let ps = patterns_for_modes_spec(font, file, ttc, base, modes);
    assert(ps[0] == mode_descriptor(font, file, ttc, InstanceMode::Default));
    assert(build_patterns_spec(font, file, ttc) =~= seq![
        mode_descriptor(font, file, ttc, InstanceMode::Default),
    ]);
    lemma_default_descriptor_flags(font, file, ttc);
}

/// Law: a font with axes and `n` named instances yields exactly `n + 2`
/// descriptors, in order: the default-mode descriptor first, one per
/// named instance in ascending index order (each ending with the
/// named-instance flag true), and the variable-mode descriptor last
/// (carrying the variable flag true); with no named instances, default
/// then variable. Stated for the inputs on which descriptors are owed at
/// all: the CFF check does not reject the font and name resolution
/// succeeds for every mode.
pub proof fn lemma_variable_font_descriptor_order(
    font: FontHandle,
    file: Seq<u8>,
    ttc: Option<i32>,
)
    requires
        font.wf(),
        font.axes@.len() > 0,
        !cff_rejected_spec(font),
        names_ok_for_all_modes(font, file),
    ensures
        build_patterns_spec(font, file, ttc).len() == font.instances@.len() + 2,
        build_patterns_spec(font, file, ttc)[0] == mode_descriptor(
            font,
            file,
            ttc,
            InstanceMode::Default,
        ),
        forall|i: int|
            0 <= i < font.instances@.len() ==> build_patterns_spec(font, file, ttc)[i + 1]
                == mode_descriptor(font, file, ttc, InstanceMode::Named(#[trigger] (i as i32))),
        build_patterns_spec(font, file, ttc).last() == mode_descriptor(
            font,
            file,
            ttc,
            InstanceMode::Variable,
        ),
        mode_descriptor(font, file, ttc, InstanceMode::Default).contains(
            bool_elem(ObjectKey::Variable, false),
        ),
        forall|i: int|
            0 <= i < font.instances@.len() ==> (#[trigger] mode_descriptor(
                font,
                file,
                ttc,
                InstanceMode::Named(i as i32),
            )).last() == bool_elem(ObjectKey::NamedInstance, true),
        mode_descriptor(font, file, ttc, InstanceMode::Variable).contains(
            bool_elem(ObjectKey::Variable, true),
        ),
{
    let base = base_elems_spec(font, file);
    let modes = all_instances_spec(font);
    let n = font.instances@.len() as int;
    assert(modes.len() == n + 2);
    assert(modes[0] == InstanceMode::Default);
    assert forall|i: int| 0 <= i < n implies modes[i + 1] == InstanceMode::Named(
        #[trigger] (i as i32),
    ) by {
        assert(Seq::new(font.instances@.len() as nat, |k: int| InstanceMode::Named(k as i32))[i]
            == InstanceMode::Named(i as i32));
    }
    assert(modes[n + 1] == InstanceMode::Variable);
    lemma_patterns_all_ok(font, file, ttc, base, modes);
    let ps = patterns_for_modes_spec(font, file, ttc, base, modes);
    assert(build_patterns_spec(font, file, ttc) == ps);
    assert(ps[0] == mode_descriptor(font, file, ttc, InstanceMode::Default));
    assert forall|i: int| 0 <= i < n implies ps[i + 1] == mode_descriptor(
        font,
        file,
        ttc,
        InstanceMode::Named(#[trigger] (i as i32)),
    ) by {
        assert(modes[i + 1] == InstanceMode::Named(i as i32));
    }
    assert(ps[n + 1] == mode_descriptor(font, file, ttc, InstanceMode::Variable));
    lemma_default_descriptor_flags(font, file, ttc);
    assert forall|i: int| 0 <= i < n implies (#[trigger] mode_descriptor(
        font,
        file,
        ttc,
        InstanceMode::Named(i as i32),
    )).last() == bool_elem(ObjectKey::NamedInstance, true) by {
        lemma_named_descriptor_flag(font, file, ttc, i as i32);
    }
    lemma_variable_descriptor_flag(font, file, ttc);
}

} // verus!
