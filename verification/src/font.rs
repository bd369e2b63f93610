//! The plain-value view of one parsed font binary.
//!
//! The engine never reads font files itself: the caller decodes the tables
//! it needs (a narrow, read-only facade over the binary) and hands the
//! results over in a [`FontHandle`]. Magnitudes that the font file stores
//! as 16.16 fixed-point numbers — axis extremes, instance coordinates,
//! glyph advances — are carried in that same fixed-point form, as an `i64`
//! holding the value times 65536.

use vstd::prelude::*;

verus! {

/// 16.16 fixed-point values decoded from a font fit in 32 bits.
pub const FIXED_BOUND: i64 = 0x8000_0000;

/// One unit in 16.16 fixed-point form.
pub const FIXED_ONE: i64 = 0x1_0000;

// Table tags, as big-endian byte strings read as integers.
pub const TAG_GLYF: u32 = 0x676C7966;
pub const TAG_CFF: u32 = 0x43464620;
pub const TAG_CFF2: u32 = 0x43464632;
pub const TAG_COLR: u32 = 0x434F4C52;
pub const TAG_SVG: u32 = 0x53564720;
pub const TAG_CBLC: u32 = 0x43424C43;
pub const TAG_SBIX: u32 = 0x53424958;
pub const TAG_FPGM: u32 = 0x6670676D;
pub const TAG_CVT: u32 = 0x63767420;
pub const TAG_PREP: u32 = 0x70726570;

// Variation-axis tags.
pub const TAG_WGHT: u32 = 0x77676874;
pub const TAG_WDTH: u32 = 0x77647468;
pub const TAG_SLNT: u32 = 0x736C6E74;
pub const TAG_OPSZ: u32 = 0x6F70737A;

// Name-table identifiers.
pub const NAME_ID_FAMILY: u16 = 1;
pub const NAME_ID_SUBFAMILY: u16 = 2;
pub const NAME_ID_FULL_NAME: u16 = 4;
pub const NAME_ID_POSTSCRIPT: u16 = 6;
pub const NAME_ID_TYPOGRAPHIC_FAMILY: u16 = 16;
pub const NAME_ID_TYPOGRAPHIC_SUBFAMILY: u16 = 17;
pub const NAME_ID_COMPATIBLE_FULL: u16 = 18;
pub const NAME_ID_WWS_FAMILY: u16 = 21;
pub const NAME_ID_WWS_SUBFAMILY: u16 = 22;
pub const NAME_ID_VARIATIONS_PS_PREFIX: u16 = 25;

/// Slant classification derived from the font's style metadata.
#[derive(Clone, Copy, Debug, PartialEq, Eq, Structural)]
pub enum SlantStyle {
    Roman,
    Italic,
    Oblique,
}

/// One variation axis: a bounded continuous design parameter.
#[derive(Clone, Copy, Debug, PartialEq, Eq, Structural)]
pub struct Axis {
    pub tag: u32,
    /// Least user coordinate, 16.16 fixed.
    pub min: i64,
    /// Default user coordinate, 16.16 fixed.
    pub def: i64,
    /// Greatest user coordinate, 16.16 fixed.
    pub max: i64,
}

impl Axis {
    pub open spec fn wf(&self) -> bool {
        -FIXED_BOUND <= self.min <= self.def <= self.max <= FIXED_BOUND
    }
}

/// One predefined point in a variable font's design space.
#[derive(Clone, Debug)]
pub struct InstanceRecord {
    /// User coordinates, one per axis of the font, in axis order,
    /// 16.16 fixed.
    pub coords: Vec<i64>,
    /// Name-table id of the instance's subfamily string.
    pub subfamily_name_id: u16,
    /// Name-table id of the instance's own postscript name, if any.
    pub postscript_name_id: Option<u16>,
    /// Glyph advances at this instance's design-space location, at the
    /// reference size, in character-map order, 16.16 fixed. Non-positive
    /// entries stand for unavailable advances.
    pub advances: Vec<i64>,
}

impl InstanceRecord {
    pub open spec fn wf(&self, axis_count: int) -> bool {
        &&& self.coords@.len() == axis_count
        &&& forall|i: int|
            0 <= i < self.coords@.len() ==> -FIXED_BOUND <= #[trigger] self.coords@[i]
                <= FIXED_BOUND
    }
}

/// One localized string of the font's name table.
#[derive(Clone, Debug)]
pub struct NameRecord {
    pub name_id: u16,
    /// The record's language tag, if it carries one.
    pub language: Option<Vec<u8>>,
    /// The decoded string value.
    pub value: Vec<u8>,
}

/// A read-only plain-value view over one font binary — one member of a
/// collection, or a standalone font.
#[derive(Clone, Debug)]
pub struct FontHandle {
    /// Tags of the tables the font contains.
    pub tables: Vec<u32>,
    /// Byte length of the `prep` table, when present.
    pub prep_len: Option<u64>,
    /// Major version from the CFF table header, when a CFF table is
    /// present and its header could be read.
    pub cff_major: Option<u8>,
    /// Weight class from the OS/2 table, when present.
    pub os2_weight_class: Option<u16>,
    /// Width class from the OS/2 table, when present.
    pub os2_width_class: Option<u16>,
    /// Weight class derived from style metadata (the fallback source).
    pub attr_weight: u16,
    /// Width class (1–9) derived from style metadata; 0 when unknown.
    pub attr_width_class: u16,
    /// Slant derived from style metadata.
    pub attr_style: SlantStyle,
    /// The font's variation axes, in table order.
    pub axes: Vec<Axis>,
    /// The font's named instances, in table order.
    pub instances: Vec<InstanceRecord>,
    /// The name table's records, or `None` when the font has no name
    /// table. Records of one name id keep their table order.
    pub name_records: Option<Vec<NameRecord>>,
    /// Glyph advances at the default design-space location, at the
    /// reference size, in character-map order, 16.16 fixed. Non-positive
    /// entries stand for unavailable advances.
    pub default_advances: Vec<i64>,
    /// Whether the character map is a symbol encoding.
    pub is_symbol: bool,
    /// The `head` table's font revision, as raw 16.16 bits, when present.
    pub font_version: Option<i32>,
    /// Foundry string, when one could be looked up.
    pub foundry: Option<Vec<u8>>,
    /// Capability string, when one could be assembled.
    pub capabilities: Option<Vec<u8>>,
}

impl FontHandle {
    /// Structural invariant: axis extremes are ordered and everything
    /// decoded from 16.16 fixed-point fields is in 32-bit range; each
    /// instance carries one coordinate per axis; a font without axes has
    /// no named instances; the instance count fits the font format's
    /// 16-bit field.
    pub open spec fn wf(&self) -> bool {
        &&& forall|i: int| 0 <= i < self.axes@.len() ==> (#[trigger] self.axes@[i]).wf()
        &&& self.instances@.len() <= 0xFFFF
        &&& forall|i: int|
            0 <= i < self.instances@.len() ==> (#[trigger] self.instances@[i]).wf(
                self.axes@.len() as int,
            )
        &&& self.instances@.len() > 0 ==> self.axes@.len() > 0
    }

    /// Whether a table with the given tag is present.
    pub fn has_table(&self, tag: u32) -> (r: bool)
        ensures
            r == self.tables@.contains(tag),
    {
        let mut i: usize = 0;
        while i < self.tables.len()
            invariant
                0 <= i <= self.tables@.len(),
                forall|j: int| 0 <= j < i ==> self.tables@[j] != tag,
            decreases self.tables@.len() - i,
        {
            if self.tables[i] == tag {
                return true;
            }
            i = i + 1;
        }
        false
    }

    /// The named instance at `index`, counting as the font file does.
    pub fn instance_at(&self, index: i32) -> (r: Option<&InstanceRecord>)
        ensures
            match r {
                Some(inst) => 0 <= index < self.instances@.len() && *inst
                    == self.instances@[index as int],
                None => !(0 <= index < self.instances@.len()),
            },
    {
        if index >= 0 && (index as usize) < self.instances.len() {
            Some(&self.instances[index as usize])
        } else {
            None
        }
    }

    /// The first axis carrying `tag`, if any.
    pub fn axis_by_tag(&self, tag: u32) -> (r: Option<&Axis>)
        ensures
            match r {
                Some(a) => axis_by_tag_spec(self.axes@, tag) == Some(*a),
                None => axis_by_tag_spec(self.axes@, tag) is None,
            },
    {
        let mut i: usize = 0;
        while i < self.axes.len()
            invariant
                0 <= i <= self.axes@.len(),
                forall|j: int| 0 <= j < i ==> self.axes@[j].tag != tag,
            decreases self.axes@.len() - i,
        {
            if self.axes[i].tag == tag {
                proof {
                    lemma_axis_by_tag_at(self.axes@, tag, i as int);
                }
                return Some(&self.axes[i]);
            }
            i = i + 1;
        }
        proof {
            lemma_axis_by_tag_at(self.axes@, tag, self.axes@.len() as int);
        }
        None
    }
}

/// The first axis of `axes` carrying `tag`.
pub open spec fn axis_by_tag_spec(axes: Seq<Axis>, tag: u32) -> Option<Axis>
    decreases axes.len(),
{
    if axes.len() == 0 {
        None
    } else if axes[0].tag == tag {
        Some(axes[0])
    } else {
        axis_by_tag_spec(axes.drop_first(), tag)
    }
}

proof fn lemma_axis_by_tag_at(axes: Seq<Axis>, tag: u32, i: int)
    requires
        0 <= i <= axes.len(),
        forall|j: int| 0 <= j < i ==> axes[j].tag != tag,
        i < axes.len() ==> axes[i].tag == tag,
    ensures
        axis_by_tag_spec(axes, tag) == if i < axes.len() {
            Some(axes[i])
        } else {
            None::<Axis>
        },
    decreases i,
{
    if axes.len() == 0 {
    } else if i == 0 {
    } else {
        lemma_axis_by_tag_at(axes.drop_first(), tag, i - 1);
    }
}

} // verus!
