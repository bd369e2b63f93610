//! Typed attribute entries: the (object key, value) pairs that make up a
//! font descriptor, together with their mathematical views.

use vstd::prelude::*;

verus! {

/// The attribute slot a descriptor entry fills.
#[derive(Clone, Copy, Debug, PartialEq, Eq, Structural)]
pub enum ObjectKey {
    Family,
    FamilyLang,
    Style,
    StyleLang,
    FullName,
    FullNameLang,
    PostscriptName,
    Weight,
    Width,
    Slant,
    Size,
    Spacing,
    Variable,
    Index,
    NamedInstance,
    Outline,
    Color,
    Scalable,
    FontHasHint,
    FontFormat,
    Foundry,
    Symbol,
    Capability,
    File,
    FontWrapper,
    FontVersion,
    Order,
    GenericFamily,
}

/// Coarse style bucket inferred from family-name text.
#[derive(Clone, Copy, Debug, PartialEq, Eq, Structural)]
pub enum GenericFamily {
    Mono,
    Sans,
    Serif,
    Emoji,
    Math,
    Unknown,
}

/// A descriptor entry's value.
///
/// Scalar magnitudes that the font file stores as 16.16 fixed-point numbers
/// (axis coordinates, weights, widths, sizes) are carried here in that same
/// fixed-point form: an `i64` holding the value times 65536.
#[derive(Clone, Debug, PartialEq)]
pub enum AttributeValue {
    /// A plain integer (slant codes, spacing codes, indices, versions).
    Int(i64),
    /// A 16.16 fixed-point magnitude.
    Scalar(i64),
    /// A boolean flag.
    Boolean(bool),
    /// A byte string (names, language tags, file names, format tags).
    Text(Vec<u8>),
    /// An inclusive 16.16 fixed-point range, low end first.
    Range(i64, i64),
    /// A generic-family classification.
    Generic(GenericFamily),
}

/// Mathematical view of an [`AttributeValue`].
pub enum ValueView {
    Int(int),
    Scalar(int),
    Boolean(bool),
    Text(Seq<u8>),
    Range(int, int),
    Generic(GenericFamily),
}

impl DeepView for AttributeValue {
    type V = ValueView;

    open spec fn deep_view(&self) -> ValueView {
        match self {
            AttributeValue::Int(n) => ValueView::Int(*n as int),
            AttributeValue::Scalar(n) => ValueView::Scalar(*n as int),
            AttributeValue::Boolean(b) => ValueView::Boolean(*b),
            AttributeValue::Text(t) => ValueView::Text(t@),
            AttributeValue::Range(lo, hi) => ValueView::Range(*lo as int, *hi as int),
            AttributeValue::Generic(g) => ValueView::Generic(*g),
        }
    }
}

/// One (object key, value) pair of a descriptor.
#[derive(Clone, Debug, PartialEq)]
pub struct PatternElement {
    pub object: ObjectKey,
    pub value: AttributeValue,
}

/// Mathematical view of a [`PatternElement`].
pub struct ElemView {
    pub object: ObjectKey,
    pub value: ValueView,
}

impl DeepView for PatternElement {
    type V = ElemView;

    open spec fn deep_view(&self) -> ElemView {
        ElemView { object: self.object, value: self.value.deep_view() }
    }
}

/// Shorthand for an integer-valued element view.
pub open spec fn int_elem(object: ObjectKey, n: int) -> ElemView {
    ElemView { object, value: ValueView::Int(n) }
}

/// Shorthand for a fixed-point-valued element view.
pub open spec fn scalar_elem(object: ObjectKey, n: int) -> ElemView {
    ElemView { object, value: ValueView::Scalar(n) }
}

/// Shorthand for a boolean-valued element view.
pub open spec fn bool_elem(object: ObjectKey, b: bool) -> ElemView {
    ElemView { object, value: ValueView::Boolean(b) }
}

/// Shorthand for a text-valued element view.
pub open spec fn text_elem(object: ObjectKey, t: Seq<u8>) -> ElemView {
    ElemView { object, value: ValueView::Text(t) }
}

/// Shorthand for a range-valued element view.
pub open spec fn range_elem(object: ObjectKey, lo: int, hi: int) -> ElemView {
    ElemView { object, value: ValueView::Range(lo, hi) }
}

/// Appends one element to a descriptor under construction.
pub fn push_elem(pattern: &mut Vec<PatternElement>, e: PatternElement)
    ensures
        final(pattern).deep_view() == old(pattern).deep_view().push(e.deep_view()),
{
    pattern.push(e);
    proof {
        assert(pattern.deep_view() =~= old(pattern).deep_view().push(e.deep_view()));
    }
}

/// Copies one attribute value.
pub fn clone_value(v: &AttributeValue) -> (r: AttributeValue)
    ensures
        r.deep_view() == v.deep_view(),
{
    match v {
        AttributeValue::Int(n) => AttributeValue::Int(*n),
        AttributeValue::Scalar(n) => AttributeValue::Scalar(*n),
        AttributeValue::Boolean(b) => AttributeValue::Boolean(*b),
        AttributeValue::Text(t) => AttributeValue::Text(crate::bytestr::copy_bytes(t.as_slice())),
        AttributeValue::Range(lo, hi) => AttributeValue::Range(*lo, *hi),
        AttributeValue::Generic(g) => AttributeValue::Generic(*g),
    }
}

/// Copies one descriptor element.
pub fn clone_elem(e: &PatternElement) -> (r: PatternElement)
    ensures
        r.deep_view() == e.deep_view(),
{
    PatternElement { object: e.object, value: clone_value(&e.value) }
}

/// Copies a descriptor under construction.
pub fn clone_elems(v: &Vec<PatternElement>) -> (r: Vec<PatternElement>)
    ensures
        r.deep_view() == v.deep_view(),
{
    let mut r: Vec<PatternElement> = Vec::new();
    let mut i: usize = 0;
    while i < v.len()
        invariant
            0 <= i <= v@.len(),
            r.deep_view() == v.deep_view().take(i as int),
        decreases v@.len() - i,
    {
        let ghost prev = r.deep_view();
        let e = clone_elem(&v[i]);
        let ghost ev = e.deep_view();
        r.push(e);
        proof {
            assert(r.deep_view() =~= prev.push(ev));
            assert(v.deep_view()[i as int] == v@[i as int].deep_view());
            assert(prev.push(ev) =~= v.deep_view().take(i + 1));
        }
        i = i + 1;
    }
    proof {
        assert(v.deep_view().take(v@.len() as int) =~= v.deep_view());
    }
    r
}

} // verus!
