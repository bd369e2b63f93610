//! Style attributes of one instance mode: weight, width, slant, optical
//! size, and the spacing classification.
//!
//! Weight, width and slant resolve by a fixed source precedence: OS/2
//! classes are normative when present, style metadata is the fallback;
//! a named instance's own coordinates take precedence over font-wide
//! values; variable mode emits ranges and falls back to the static
//! values where an axis is missing.

use crate::font::{Axis, FontHandle, InstanceRecord, FIXED_ONE, TAG_OPSZ, TAG_WDTH, TAG_WGHT,
    TAG_SLNT};
use crate::instance_enumerate::InstanceMode;
use crate::scale::{fc_slant_spec, fc_slant, fc_weight, fc_weight_spec, fc_width, fc_width_spec,
    ot_to_fc_weight, ot_to_fc_weight_spec, FC_SLANT_ITALIC, FC_SLANT_ROMAN};
use crate::values::{bool_elem, int_elem, range_elem, scalar_elem, AttributeValue, ElemView,
    ObjectKey, PatternElement, push_elem};
use vstd::prelude::*;

verus! {

/// Spacing code for fixed-pitch fonts.
pub const FC_MONO: i64 = 100;

/// Spacing code for half/full-width fonts.
pub const FC_DUAL: i64 = 90;

/// Weight from the OS/2 table, on the fontmatch scale, when present.
pub open spec fn weight_from_os2_spec(font: FontHandle) -> Option<int> {
    match font.os2_weight_class {
        Some(c) => {
            let w = ot_to_fc_weight_spec(c * FIXED_ONE);
            if w == -FIXED_ONE {
                None
            } else {
                Some(w)
            }
        },
        None => None,
    }
}

/// Width from the OS/2 table, through the nine-step table, when present.
pub open spec fn width_from_os2_spec(font: FontHandle) -> Option<int> {
    match font.os2_width_class {
        Some(c) => Some(fc_width_spec(c)),
        None => None,
    }
}

/// Weight from the OS/2 table, converted to the fontmatch scale.
/// `None` when the font has no OS/2 table or no weight could be derived.
pub fn fc_weight_from_os2(font: &FontHandle) -> (r: Option<i64>)
    ensures
        match r {
            Some(w) => weight_from_os2_spec(*font) == Some(w as int),
            None => weight_from_os2_spec(*font) is None,
        },
{
    match font.os2_weight_class {
        Some(c) => {
            let w = ot_to_fc_weight((c as i64) * FIXED_ONE);
            if w == -FIXED_ONE {
                None
            } else {
                Some(w)
            }
        },
        None => None,
    }
}

/// Width class from the OS/2 table, mapped through the nine-step table.
/// `None` when the font has no OS/2 table.
pub fn fc_width_from_os2(font: &FontHandle) -> (r: Option<i64>)
    ensures
        match r {
            Some(w) => width_from_os2_spec(*font) == Some(w as int),
            None => width_from_os2_spec(*font) is None,
        },
{
    match font.os2_width_class {
        Some(c) => Some(fc_width(c)),
        None => None,
    }
}

/// The named instance a mode selects, if it selects one that exists.
pub open spec fn instance_for_mode_spec(font: FontHandle, mode: InstanceMode) -> Option<
    InstanceRecord,
> {
    match mode {
        InstanceMode::Named(i) => if 0 <= i < font.instances@.len() {
            Some(font.instances@[i as int])
        } else {
            None
        },
        _ => None,
    }
}

/// First user coordinate whose axis carries `tag`, pairing axes and
/// coordinates positionally.
pub open spec fn user_coord_spec(axes: Seq<Axis>, coords: Seq<i64>, tag: u32) -> Option<i64>
    decreases axes.len(),
{
    if axes.len() == 0 || coords.len() == 0 {
        None
    } else if axes[0].tag == tag {
        Some(coords[0])
    } else {
        user_coord_spec(axes.drop_first(), coords.drop_first(), tag)
    }
}

/// The selected instance's user coordinate for `tag`, if any.
pub open spec fn inst_coord_spec(
    font: FontHandle,
    inst: Option<InstanceRecord>,
    tag: u32,
) -> Option<i64> {
    match inst {
        Some(ir) => user_coord_spec(font.axes@, ir.coords@, tag),
        None => None,
    }
}

proof fn lemma_user_coord_at(axes: Seq<Axis>, coords: Seq<i64>, tag: u32, i: int)
    requires
        0 <= i <= axes.len(),
        i <= coords.len(),
        forall|j: int| 0 <= j < i ==> axes[j].tag != tag,
        i < axes.len() && i < coords.len() ==> axes[i].tag == tag,
        i == axes.len() || i == coords.len(),
    ensures
        user_coord_spec(axes, coords, tag) == None::<i64>,
    decreases i,
{
    if axes.len() == 0 || coords.len() == 0 {
    } else if i == 0 {
    } else {
        lemma_user_coord_at(axes.drop_first(), coords.drop_first(), tag, i - 1);
    }
}

proof fn lemma_user_coord_found(axes: Seq<Axis>, coords: Seq<i64>, tag: u32, i: int)
    requires
        0 <= i < axes.len(),
        i < coords.len(),
        forall|j: int| 0 <= j < i ==> axes[j].tag != tag,
        axes[i].tag == tag,
    ensures
        user_coord_spec(axes, coords, tag) == Some(coords[i]),
    decreases i,
{
    if i == 0 {
    } else {
        lemma_user_coord_found(axes.drop_first(), coords.drop_first(), tag, i - 1);
    }
}

/// Static weight: the OS/2 class when present, else style metadata.
pub open spec fn static_weight_spec(font: FontHandle) -> ElemView {
    match weight_from_os2_spec(font) {
        Some(w) => scalar_elem(ObjectKey::Weight, w),
        None => scalar_elem(ObjectKey::Weight, fc_weight_spec(font.attr_weight)),
    }
}

/// Static width: the OS/2 class when present, else style metadata.
pub open spec fn static_width_spec(font: FontHandle) -> ElemView {
    match width_from_os2_spec(font) {
        Some(w) => scalar_elem(ObjectKey::Width, w),
        None => scalar_elem(ObjectKey::Width, fc_width_spec(font.attr_width_class)),
    }
}

/// Static slant, from style metadata.
pub open spec fn static_slant_spec(font: FontHandle) -> ElemView {
    int_elem(ObjectKey::Slant, fc_slant_spec(font.attr_style))
}

/// Named-instance weight: the `wght` coordinate, converted.
pub open spec fn instance_weight_spec(font: FontHandle, inst: Option<InstanceRecord>) -> Option<
    ElemView,
> {
    match inst_coord_spec(font, inst, TAG_WGHT) {
        Some(c) => Some(scalar_elem(ObjectKey::Weight, ot_to_fc_weight_spec(c as int))),
        None => None,
    }
}

/// Named-instance width: the `wdth` coordinate, used directly.
pub open spec fn instance_width_spec(font: FontHandle, inst: Option<InstanceRecord>) -> Option<
    ElemView,
> {
    match inst_coord_spec(font, inst, TAG_WDTH) {
        Some(c) => Some(scalar_elem(ObjectKey::Width, c as int)),
        None => None,
    }
}

/// Named-instance slant: a negative `slnt` coordinate means italic, any
/// other roman.
pub open spec fn instance_slant_spec(font: FontHandle, inst: Option<InstanceRecord>) -> Option<
    ElemView,
> {
    match inst_coord_spec(font, inst, TAG_SLNT) {
        Some(c) => if c < 0 {
            Some(int_elem(ObjectKey::Slant, FC_SLANT_ITALIC as int))
        } else {
            Some(int_elem(ObjectKey::Slant, FC_SLANT_ROMAN as int))
        },
        None => None,
    }
}

/// Named-instance optical size: the `opsz` coordinate.
pub open spec fn instance_size_spec(font: FontHandle, inst: Option<InstanceRecord>) -> Option<
    ElemView,
> {
    match inst_coord_spec(font, inst, TAG_OPSZ) {
        Some(c) => Some(scalar_elem(ObjectKey::Size, c as int)),
        None => None,
    }
}

/// Default optical size: the `opsz` axis default, when the axis exists.
pub open spec fn default_size_spec(font: FontHandle) -> Option<ElemView> {
    match crate::font::axis_by_tag_spec(font.axes@, TAG_OPSZ) {
        Some(a) => Some(scalar_elem(ObjectKey::Size, a.def as int)),
        None => None,
    }
}

/// Variable-mode weight: the `wght` axis extremes, converted, as a range.
pub open spec fn variable_weight_spec(font: FontHandle) -> Option<ElemView> {
    match crate::font::axis_by_tag_spec(font.axes@, TAG_WGHT) {
        Some(a) => Some(
            range_elem(
                ObjectKey::Weight,
                ot_to_fc_weight_spec(a.min as int),
                ot_to_fc_weight_spec(a.max as int),
            ),
        ),
        None => None,
    }
}

/// Variable-mode width: the `wdth` axis extremes as a range.
pub open spec fn variable_width_spec(font: FontHandle) -> Option<ElemView> {
    match crate::font::axis_by_tag_spec(font.axes@, TAG_WDTH) {
        Some(a) => Some(range_elem(ObjectKey::Width, a.min as int, a.max as int)),
        None => None,
    }
}

/// Variable-mode optical size: the `opsz` axis extremes as a range.
pub open spec fn variable_opsz_spec(font: FontHandle) -> Option<ElemView> {
    match crate::font::axis_by_tag_spec(font.axes@, TAG_OPSZ) {
        Some(a) => Some(range_elem(ObjectKey::Size, a.min as int, a.max as int)),
        None => None,
    }
}

/// Absolute value.
pub open spec fn iabs(x: int) -> int {
    if x < 0 {
        -x
    } else {
        x
    }
}

/// Two advances count as equal within relative tolerance 1/33.
pub open spec fn approx_eq_spec(a: int, b: int) -> bool {
    33 * iabs(a - b) <= if iabs(a) < iabs(b) {
        iabs(b)
    } else {
        iabs(a)
    }
}

/// One step of the distinct-advance collection: a value equal to a
/// collected one is discarded, a new value is appended, and once three
/// are collected the list is final.
pub open spec fn collect_step(acc: Seq<i64>, a: i64) -> Seq<i64> {
    if acc.len() >= 3 {
        acc
    } else if acc.len() == 0 {
        seq![a]
    } else if exists|k: int| 0 <= k < acc.len() && approx_eq_spec(a as int, #[trigger] acc[k] as int) {
        acc
    } else {
        acc.push(a)
    }
}

/// The distinct advances encountered over a scan of `advs`.
pub open spec fn collect_distinct(acc: Seq<i64>, advs: Seq<i64>) -> Seq<i64>
    decreases advs.len(),
{
    if advs.len() == 0 {
        acc
    } else {
        collect_distinct(collect_step(acc, advs[0]), advs.drop_first())
    }
}

/// The spacing class of an advance distribution: one distinct advance is
/// monospace, two whose larger is about double the smaller is dual-width,
/// anything else has no classification.
pub open spec fn spacing_from_advances_spec(advs: Seq<i64>) -> Option<int> {
    let d = collect_distinct(Seq::empty(), advs);
    if d.len() == 1 {
        Some(FC_MONO as int)
    } else if d.len() == 2 {
        let lo = if d[0] < d[1] {
            d[0]
        } else {
            d[1]
        };
        let hi = if d[0] < d[1] {
            d[1]
        } else {
            d[0]
        };
        if approx_eq_spec(2 * lo, hi as int) {
            Some(FC_DUAL as int)
        } else {
            None
        }
    } else {
        None
    }
}

/// The positive advances of a list, in order.
pub open spec fn positive_advances_spec(s: Seq<i64>) -> Seq<i64>
    decreases s.len(),
{
    if s.len() == 0 {
        Seq::empty()
    } else {
        let r = positive_advances_spec(s.drop_last());
        if s.last() > 0 {
            r.push(s.last())
        } else {
            r
        }
    }
}

/// The advance list a mode is classified by: the named instance's own
/// advances when one is selected, else the default-location advances.
pub open spec fn advances_for_spec(font: FontHandle, inst: Option<InstanceRecord>) -> Seq<i64> {
    match inst {
        Some(ir) => ir.advances@,
        None => font.default_advances@,
    }
}

/// The spacing element of a mode, when the distribution classifies.
pub open spec fn spacing_elem_spec(font: FontHandle, inst: Option<InstanceRecord>) -> Option<
    ElemView,
> {
    match spacing_from_advances_spec(positive_advances_spec(advances_for_spec(font, inst))) {
        Some(code) => Some(int_elem(ObjectKey::Spacing, code)),
        None => None,
    }
}

/// Whether two advances are equal within relative tolerance 1/33.
fn approx_eq(a: i64, b: i64) -> (r: bool)
    ensures
        r == approx_eq_spec(a as int, b as int),
{
    let ai: i128 = a as i128;
    let bi: i128 = b as i128;
    let d: i128 = if ai - bi < 0 {
        bi - ai
    } else {
        ai - bi
    };
    let aa: i128 = if ai < 0 {
        -ai
    } else {
        ai
    };
    let ab: i128 = if bi < 0 {
        -bi
    } else {
        bi
    };
    let m: i128 = if aa < ab {
        ab
    } else {
        aa
    };
    33 * d <= m
}

/// Whether `hi` is about double `lo`, within relative tolerance 1/33.
fn approx_double(lo: i64, hi: i64) -> (r: bool)
    ensures
        r == approx_eq_spec(2 * lo, hi as int),
{
    let twice: i128 = 2 * (lo as i128);
    let hii: i128 = hi as i128;
    let d: i128 = if twice - hii < 0 {
        hii - twice
    } else {
        twice - hii
    };
    let aa: i128 = if twice < 0 {
        -twice
    } else {
        twice
    };
    let ab: i128 = if hii < 0 {
        -hii
    } else {
        hii
    };
    let m: i128 = if aa < ab {
        ab
    } else {
        aa
    };
    33 * d <= m
}

/// Converter from one font and instance mode to the style elements of a
/// descriptor.
pub struct AttributesToPattern<'a> {
    /// The font the attributes are derived from.
    pub font: &'a FontHandle,
    /// The named instance the mode selects, when it selects one that
    /// exists.
    pub named_instance: Option<&'a InstanceRecord>,
}

impl<'a> AttributesToPattern<'a> {
    /// The selected instance, as the specification functions see it.
    pub open spec fn inst_view(&self) -> Option<InstanceRecord> {
        match self.named_instance {
            Some(ir) => Some(*ir),
            None => None,
        }
    }

    pub open spec fn font_view(&self) -> FontHandle {
        *self.font
    }

    pub fn new(font: &'a FontHandle, instance_mode: &InstanceMode) -> (r: Self)
        ensures
            r.font_view() == *font,
            r.inst_view() == instance_for_mode_spec(*font, *instance_mode),
    {
        let named_instance = match instance_mode {
            InstanceMode::Named(index) => font.instance_at(*index),
            _ => None,
        };
        AttributesToPattern { font, named_instance }
    }

    /// The selected instance's user coordinate for `tag`, if any.
    pub fn user_coord_for_tag(&self, tag: u32) -> (r: Option<i64>)
        ensures
            r == inst_coord_spec(self.font_view(), self.inst_view(), tag),
    {
        match self.named_instance {
            None => None,
            Some(inst) => {
                let n = if self.font.axes.len() < inst.coords.len() {
                    self.font.axes.len()
                } else {
                    inst.coords.len()
                };
                let mut i: usize = 0;
                while i < n
                    invariant
                        0 <= i <= n,
                        self.named_instance == Some(inst),
                        n == if self.font.axes@.len() < inst.coords@.len() {
                            self.font.axes@.len()
                        } else {
                            inst.coords@.len()
                        },
                        forall|j: int| 0 <= j < i ==> self.font.axes@[j].tag != tag,
                    decreases n - i,
                {
                    if self.font.axes[i].tag == tag {
                        proof {
                            lemma_user_coord_found(
                                self.font.axes@,
                                inst.coords@,
                                tag,
                                i as int,
                            );
                        }
                        return Some(inst.coords[i]);
                    }
                    i = i + 1;
                }
                proof {
                    lemma_user_coord_at(self.font.axes@, inst.coords@, tag, n as int);
                }
                None
            },
        }
    }

    /// Static weight element, by OS/2-first precedence.
    pub fn static_weight(&self) -> (r: PatternElement)
        ensures
            r.deep_view() == static_weight_spec(self.font_view()),
    {
        match fc_weight_from_os2(self.font) {
            Some(w) => PatternElement { object: ObjectKey::Weight, value: AttributeValue::Scalar(w) },
            None => PatternElement {
                object: ObjectKey::Weight,
                value: AttributeValue::Scalar(fc_weight(self.font.attr_weight)),
            },
        }
    }

    /// Static width element, by OS/2-first precedence.
    pub fn static_width(&self) -> (r: PatternElement)
        ensures
            r.deep_view() == static_width_spec(self.font_view()),
    {
        match fc_width_from_os2(self.font) {
            Some(w) => PatternElement { object: ObjectKey::Width, value: AttributeValue::Scalar(w) },
            None => PatternElement {
                object: ObjectKey::Width,
                value: AttributeValue::Scalar(fc_width(self.font.attr_width_class)),
            },
        }
    }

    /// Static slant element, from style metadata.
    pub fn static_slant(&self) -> (r: PatternElement)
        ensures
            r.deep_view() == static_slant_spec(self.font_view()),
    {
        PatternElement {
            object: ObjectKey::Slant,
            value: AttributeValue::Int(fc_slant(self.font.attr_style)),
        }
    }

    /// Weight element of the selected named instance, if it has a `wght`
    /// coordinate.
    pub fn instance_weight(&self) -> (r: Option<PatternElement>)
        ensures
            match r {
                Some(e) => instance_weight_spec(self.font_view(), self.inst_view()) == Some(
                    e.deep_view(),
                ),
                None => instance_weight_spec(self.font_view(), self.inst_view()) is None,
            },
    {
        match self.user_coord_for_tag(TAG_WGHT) {
            Some(c) => Some(
                PatternElement {
                    object: ObjectKey::Weight,
                    value: AttributeValue::Scalar(ot_to_fc_weight(c)),
                },
            ),
            None => None,
        }
    }

    /// Width element of the selected named instance, if it has a `wdth`
    /// coordinate.
    pub fn instance_width(&self) -> (r: Option<PatternElement>)
        ensures
            match r {
                Some(e) => instance_width_spec(self.font_view(), self.inst_view()) == Some(
                    e.deep_view(),
                ),
                None => instance_width_spec(self.font_view(), self.inst_view()) is None,
            },
    {
        match self.user_coord_for_tag(TAG_WDTH) {
            Some(c) => Some(
                PatternElement { object: ObjectKey::Width, value: AttributeValue::Scalar(c) },
            ),
            None => None,
        }
    }

    /// Slant element of the selected named instance, if it has a `slnt`
    /// coordinate.
    pub fn instance_slant(&self) -> (r: Option<PatternElement>)
        ensures
            match r {
                Some(e) => instance_slant_spec(self.font_view(), self.inst_view()) == Some(
                    e.deep_view(),
                ),
                None => instance_slant_spec(self.font_view(), self.inst_view()) is None,
            },
    {
        match self.user_coord_for_tag(TAG_SLNT) {
            Some(c) => {
                if c < 0 {
                    Some(
                        PatternElement {
                            object: ObjectKey::Slant,
                            value: AttributeValue::Int(FC_SLANT_ITALIC),
                        },
                    )
                } else {
                    Some(
                        PatternElement {
                            object: ObjectKey::Slant,
                            value: AttributeValue::Int(FC_SLANT_ROMAN),
                        },
                    )
                }
            },
            None => None,
        }
    }

    /// Optical-size element of the selected named instance, if it has an
    /// `opsz` coordinate.
    pub fn instance_size(&self) -> (r: Option<PatternElement>)
        ensures
            match r {
                Some(e) => instance_size_spec(self.font_view(), self.inst_view()) == Some(
                    e.deep_view(),
                ),
                None => instance_size_spec(self.font_view(), self.inst_view()) is None,
            },
    {
        match self.user_coord_for_tag(TAG_OPSZ) {
            Some(c) => Some(
                PatternElement { object: ObjectKey::Size, value: AttributeValue::Scalar(c) },
            ),
            None => None,
        }
    }

    /// Optical-size element from the `opsz` axis default, if the axis
    /// exists.
    pub fn default_size(&self) -> (r: Option<PatternElement>)
        ensures
            match r {
                Some(e) => default_size_spec(self.font_view()) == Some(e.deep_view()),
                None => default_size_spec(self.font_view()) is None,
            },
    {
        match self.font.axis_by_tag(TAG_OPSZ) {
            Some(a) => Some(
                PatternElement { object: ObjectKey::Size, value: AttributeValue::Scalar(a.def) },
            ),
            None => None,
        }
    }

    /// Weight range over the `wght` axis, if the axis exists.
    pub fn variable_weight(&self) -> (r: Option<PatternElement>)
        ensures
            match r {
                Some(e) => variable_weight_spec(self.font_view()) == Some(e.deep_view()),
                None => variable_weight_spec(self.font_view()) is None,
            },
    {
        match self.font.axis_by_tag(TAG_WGHT) {
            Some(a) => {
                let lo = ot_to_fc_weight(a.min);
                let hi = ot_to_fc_weight(a.max);
                Some(
                    PatternElement {
                        object: ObjectKey::Weight,
                        value: AttributeValue::Range(lo, hi),
                    },
                )
            },
            None => None,
        }
    }

    /// Width range over the `wdth` axis, if the axis exists.
    pub fn variable_width(&self) -> (r: Option<PatternElement>)
        ensures
            match r {
                Some(e) => variable_width_spec(self.font_view()) == Some(e.deep_view()),
                None => variable_width_spec(self.font_view()) is None,
            },
    {
        match self.font.axis_by_tag(TAG_WDTH) {
            Some(a) => Some(
                PatternElement {
                    object: ObjectKey::Width,
                    value: AttributeValue::Range(a.min, a.max),
                },
            ),
            None => None,
        }
    }

    /// Optical-size range over the `opsz` axis, if the axis exists.
    pub fn variable_opsz(&self) -> (r: Option<PatternElement>)
        ensures
            match r {
                Some(e) => variable_opsz_spec(self.font_view()) == Some(e.deep_view()),
                None => variable_opsz_spec(self.font_view()) is None,
            },
    {
        match self.font.axis_by_tag(TAG_OPSZ) {
            Some(a) => Some(
                PatternElement {
                    object: ObjectKey::Size,
                    value: AttributeValue::Range(a.min, a.max),
                },
            ),
            None => None,
        }
    }

    /// Classifies an advance distribution: up to three distinct advances
    /// are collected under relative tolerance 1/33; exactly one gives
    /// monospace, exactly two in a one-to-two relation give dual-width,
    /// anything else no classification.
    pub fn spacing_from_advances(advances: &Vec<i64>) -> (r: Option<i64>)
        ensures
            match r {
                Some(code) => spacing_from_advances_spec(advances@) == Some(code as int),
                None => spacing_from_advances_spec(advances@) is None,
            },
    {
        let mut enc: Vec<i64> = Vec::new();
        let mut i: usize = 0;
        while i < advances.len()
            invariant
                0 <= i <= advances@.len(),
                enc@ == collect_distinct(Seq::empty(), advances@.take(i as int)),
            decreases advances@.len() - i,
        {
            let ghost pre = enc@;
            let a = advances[i];
            if enc.len() < 3 {
                if enc.len() == 0 {
                    enc.push(a);
                    proof {
                        assert(enc@ =~= seq![a]);
                        assert(enc@ == collect_step(pre, a));
                    }
                } else {
                    let mut found: bool = false;
                    let mut k: usize = 0;
                    while k < enc.len()
                        invariant
                            0 <= k <= enc@.len(),
                            found == exists|j: int|
                                0 <= j < k && approx_eq_spec(a as int, #[trigger] enc@[j] as int),
                        decreases enc@.len() - k,
                    {
                        if approx_eq(a, enc[k]) {
                            found = true;
                        }
                        k = k + 1;
                    }
                    if !found {
                        enc.push(a);
                    }
                    proof {
                        assert(enc@ == collect_step(pre, a));
                    }
                }
            } else {
                proof {
                    assert(enc@ == collect_step(pre, a));
                }
            }
            proof {
                let prefix = advances@.take(i as int);
                lemma_collect_distinct_snoc(Seq::empty(), prefix, a);
                assert(advances@.take(i + 1) =~= prefix.push(a));
            }
            i = i + 1;
        }
        proof {
            assert(advances@.take(advances@.len() as int) =~= advances@);
        }
        if enc.len() == 1 {
            Some(FC_MONO)
        } else if enc.len() == 2 {
            let a0 = enc[0];
            let a1 = enc[1];
            let lo = if a0 < a1 {
                a0
            } else {
                a1
            };
            let hi = if a0 < a1 {
                a1
            } else {
                a0
            };
            if approx_double(lo, hi) {
                Some(FC_DUAL)
            } else {
                None
            }
        } else {
            None
        }
    }

    /// Spacing element of the selected mode, from its advance
    /// distribution, when one classifies.
    pub fn spacing(&self) -> (r: Option<PatternElement>)
        ensures
            match r {
                Some(e) => spacing_elem_spec(self.font_view(), self.inst_view()) == Some(
                    e.deep_view(),
                ),
                None => spacing_elem_spec(self.font_view(), self.inst_view()) is None,
            },
    {
        let advances: &Vec<i64> = match self.named_instance {
            Some(inst) => &inst.advances,
            None => &self.font.default_advances,
        };
        let mut positive: Vec<i64> = Vec::new();
        let mut i: usize = 0;
        while i < advances.len()
            invariant
                0 <= i <= advances@.len(),
                positive@ == positive_advances_spec(advances@.take(i as int)),
            decreases advances@.len() - i,
        {
            let a = advances[i];
            if a > 0 {
                positive.push(a);
            }
            proof {
                assert(advances@.take(i + 1).drop_last() =~= advances@.take(i as int));
                assert(advances@.take(i + 1).last() == advances@[i as int]);
            }
            i = i + 1;
        }
        proof {
            assert(advances@.take(advances@.len() as int) =~= advances@);
        }
        match Self::spacing_from_advances(&positive) {
            Some(code) => Some(
                PatternElement { object: ObjectKey::Spacing, value: AttributeValue::Int(code) },
            ),
            None => None,
        }
    }
}

/// Appending one element to the scanned advances extends the collection
/// by one step.
proof fn lemma_collect_distinct_snoc(acc: Seq<i64>, s: Seq<i64>, a: i64)
    ensures
        collect_distinct(acc, s.push(a)) == collect_step(collect_distinct(acc, s), a),
    decreases s.len(),
{
    if s.len() == 0 {
        assert(s.push(a).drop_first() =~= Seq::<i64>::empty());
        assert(s.push(a)[0] == a);
        assert(collect_distinct(acc, s.push(a)) == collect_distinct(
            collect_step(acc, a),
            Seq::<i64>::empty(),
        ));
        assert(collect_distinct(collect_step(acc, a), Seq::<i64>::empty()) == collect_step(
            acc,
            a,
        ));
        assert(collect_distinct(acc, s) == acc);
    } else {
        assert(s.push(a)[0] == s[0]);
        assert(s.push(a).drop_first() =~= s.drop_first().push(a));
        lemma_collect_distinct_snoc(collect_step(acc, s[0]), s.drop_first(), a);
    }
}

/// A sequence holding only an optional element view.
pub open spec fn opt_seq(o: Option<ElemView>) -> Seq<ElemView> {
    match o {
        Some(e) => seq![e],
        None => Seq::empty(),
    }
}

/// The index element's value: the collection index in the low half and,
/// for a named instance, one plus the instance index in the high half.
pub open spec fn index_value_spec(ttc_index: Option<i32>, mode: InstanceMode) -> int {
    let base: int = match ttc_index {
        Some(t) => t as int,
        None => 0,
    };
    match mode {
        InstanceMode::Named(i) => base + (i + 1) * 0x10000,
        _ => base,
    }
}

/// The style elements one instance mode appends, in order: the spacing
/// classification when one exists, then the mode's weight, width, slant,
/// size, variability flags and index, by the table of source precedence.
pub open spec fn style_elems_spec(
    font: FontHandle,
    mode: InstanceMode,
    ttc_index: Option<i32>,
) -> Seq<ElemView> {
    let inst = instance_for_mode_spec(font, mode);
    opt_seq(spacing_elem_spec(font, inst)) + match mode {
        InstanceMode::Default => seq![
            static_weight_spec(font),
            static_width_spec(font),
            static_slant_spec(font),
            bool_elem(ObjectKey::Variable, false),
            int_elem(ObjectKey::Index, index_value_spec(ttc_index, mode)),
        ] + opt_seq(default_size_spec(font)) + seq![bool_elem(ObjectKey::NamedInstance, false)],
        InstanceMode::Variable => seq![
            match variable_weight_spec(font) {
                Some(e) => e,
                None => static_weight_spec(font),
            },
            match variable_width_spec(font) {
                Some(e) => e,
                None => static_width_spec(font),
            },
        ] + opt_seq(variable_opsz_spec(font)) + seq![
            bool_elem(ObjectKey::Variable, true),
            int_elem(ObjectKey::Index, index_value_spec(ttc_index, mode)),
            bool_elem(ObjectKey::NamedInstance, false),
            static_slant_spec(font),
        ],
        InstanceMode::Named(_) => opt_seq(instance_weight_spec(font, inst)) + opt_seq(
            instance_width_spec(font, inst),
        ) + seq![
            bool_elem(ObjectKey::Variable, false),
            int_elem(ObjectKey::Index, index_value_spec(ttc_index, mode)),
        ] + opt_seq(
            match instance_size_spec(font, inst) {
                Some(e) => Some(e),
                None => default_size_spec(font),
            },
        ) + opt_seq(instance_slant_spec(font, inst)) + seq![
            bool_elem(ObjectKey::NamedInstance, true),
        ],
    }
}

/// Appends the style elements of one instance mode to a descriptor under
/// construction, in their fixed order.
#[verifier::rlimit(100)]
pub fn append_style_elements(
    font: &FontHandle,
    instance_mode: InstanceMode,
    ttc_index: Option<i32>,
    pattern: &mut Vec<PatternElement>,
)
    ensures
        final(pattern).deep_view() == old(pattern).deep_view() + style_elems_spec(
            *font,
            instance_mode,
            ttc_index,
        ),
{
    let ghost s0 = old(pattern).deep_view();
    let ghost fontv = *font;
    let ghost inst = instance_for_mode_spec(*font, instance_mode);
    let attributes_converter = AttributesToPattern::new(font, &instance_mode);

    if let Some(spacing) = attributes_converter.spacing() {
        push_elem(pattern, spacing);
    }
    proof {
        assert(pattern.deep_view() =~= s0 + opt_seq(spacing_elem_spec(fontv, inst)));
    }
    let ghost s1 = s0 + opt_seq(spacing_elem_spec(fontv, inst));

    let base: i64 = match ttc_index {
        Some(t) => t as i64,
        None => 0,
    };

    match instance_mode {
        InstanceMode::Default => {
            push_elem(pattern, attributes_converter.static_weight());
            push_elem(pattern, attributes_converter.static_width());
            push_elem(pattern, attributes_converter.static_slant());
            push_elem(
                pattern,
                PatternElement {
                    object: ObjectKey::Variable,
                    value: AttributeValue::Boolean(false),
                },
            );
            push_elem(
                pattern,
                PatternElement { object: ObjectKey::Index, value: AttributeValue::Int(base) },
            );
            if let Some(size) = attributes_converter.default_size() {
                push_elem(pattern, size);
            }
            push_elem(
                pattern,
                PatternElement {
                    object: ObjectKey::NamedInstance,
                    value: AttributeValue::Boolean(false),
                },
            );
            proof {
                assert(pattern.deep_view() =~= s0 + style_elems_spec(
                    fontv,
                    instance_mode,
                    ttc_index,
                ));
            }
        },
        InstanceMode::Variable => {
            let weight_to_add = match attributes_converter.variable_weight() {
                Some(e) => e,
                None => attributes_converter.static_weight(),
            };
            push_elem(pattern, weight_to_add);
            let width_to_add = match attributes_converter.variable_width() {
                Some(e) => e,
                None => attributes_converter.static_width(),
            };
            push_elem(pattern, width_to_add);
            if let Some(size) = attributes_converter.variable_opsz() {
                push_elem(pattern, size);
            }
            push_elem(
                pattern,
                PatternElement {
                    object: ObjectKey::Variable,
                    value: AttributeValue::Boolean(true),
                },
            );
            push_elem(
                pattern,
                PatternElement { object: ObjectKey::Index, value: AttributeValue::Int(base) },
            );
            push_elem(
                pattern,
                PatternElement {
                    object: ObjectKey::NamedInstance,
                    value: AttributeValue::Boolean(false),
                },
            );
            push_elem(pattern, attributes_converter.static_slant());
            proof {
                assert(pattern.deep_view() =~= s0 + style_elems_spec(
                    fontv,
                    instance_mode,
                    ttc_index,
                ));
            }
        },
        InstanceMode::Named(index) => {
            if let Some(weight) = attributes_converter.instance_weight() {
                push_elem(pattern, weight);
            }
            if let Some(width) = attributes_converter.instance_width() {
                push_elem(pattern, width);
            }
            push_elem(
                pattern,
                PatternElement {
                    object: ObjectKey::Variable,
                    value: AttributeValue::Boolean(false),
                },
            );
            let idx_val: i64 = base + ((index as i64) + 1) * 0x10000;
            push_elem(
                pattern,
                PatternElement { object: ObjectKey::Index, value: AttributeValue::Int(idx_val) },
            );
            let size_element = match attributes_converter.instance_size() {
                Some(e) => Some(e),
                None => attributes_converter.default_size(),
            };
            if let Some(size) = size_element {
                push_elem(pattern, size);
            }
            if let Some(slant_element) = attributes_converter.instance_slant() {
                push_elem(pattern, slant_element);
            }
            push_elem(
                pattern,
                PatternElement {
                    object: ObjectKey::NamedInstance,
                    value: AttributeValue::Boolean(true),
                },
            );
            proof {
                assert(pattern.deep_view() =~= s0 + style_elems_spec(
                    fontv,
                    instance_mode,
                    ttc_index,
                ));
            }
        },
    }
}

} // verus!
