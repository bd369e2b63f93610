//! Name resolution: extraction, prioritization, language normalization,
//! deduplication and named-instance mangling of the font's name strings,
//! with a filename-derived fallback family name.

use crate::bytestr::{bytes_eq, contains_byte, contains_seq, contains_seq_spec, copy_bytes, concat_bytes,
    find_first, find_first_spec, find_last, find_last_spec, lower_spec, normalize_bytes,
    normalize_spec, starts_with, starts_with_spec, strip_spaces, strip_spaces_spec, to_lower,
    trim_bytes, trim_spec};
use crate::font::{FontHandle, NameRecord, NAME_ID_COMPATIBLE_FULL, NAME_ID_FAMILY,
    NAME_ID_FULL_NAME, NAME_ID_POSTSCRIPT, NAME_ID_SUBFAMILY, NAME_ID_TYPOGRAPHIC_FAMILY,
    NAME_ID_TYPOGRAPHIC_SUBFAMILY, NAME_ID_VARIATIONS_PS_PREFIX, NAME_ID_WWS_FAMILY,
    NAME_ID_WWS_SUBFAMILY};
use crate::instance_enumerate::InstanceMode;
use crate::values::{push_elem, text_elem, AttributeValue, ElemView, GenericFamily, ObjectKey,
    PatternElement, ValueView};
use vstd::prelude::*;

verus! {

/// Why no names could be added for one instance mode.
#[derive(Debug, Clone, PartialEq, Eq, Structural)]
pub enum NameAddingError {
    NoFamilyName,
    NoNameTable,
}

impl NameAddingError {
    /// A human-readable description of the error.
    pub fn message(&self) -> (m: &'static str) {
        match self {
            NameAddingError::NoFamilyName => "Could not determine font family name.",
            NameAddingError::NoNameTable => "Font has no 'name' table.",
        }
    }
}

/// Mathematical view of one name-table record.
pub struct NameRecV {
    pub name_id: u16,
    pub language: Option<Seq<u8>>,
    pub value: Seq<u8>,
}

impl DeepView for NameRecord {
    type V = NameRecV;

    open spec fn deep_view(&self) -> NameRecV {
        NameRecV {
            name_id: self.name_id,
            language: match self.language {
                Some(l) => Some(l@),
                None => None,
            },
            value: self.value@,
        }
    }
}

/// The name-table records of a font, or nothing when it has no name
/// table.
pub open spec fn records_of(font: FontHandle) -> Seq<NameRecV> {
    match font.name_records {
        Some(v) => v.deep_view(),
        None => Seq::empty(),
    }
}

/// The attribute slots a name id feeds: the name slot, and the language
/// slot beside it, if the name carries one.
pub open spec fn object_ids_spec(name_id: u16) -> Option<(ObjectKey, Option<ObjectKey>)> {
    if name_id == NAME_ID_FAMILY || name_id == NAME_ID_WWS_FAMILY || name_id
        == NAME_ID_TYPOGRAPHIC_FAMILY {
        Some((ObjectKey::Family, Some(ObjectKey::FamilyLang)))
    } else if name_id == NAME_ID_FULL_NAME || name_id == NAME_ID_COMPATIBLE_FULL {
        Some((ObjectKey::FullName, Some(ObjectKey::FullNameLang)))
    } else if name_id == NAME_ID_POSTSCRIPT {
        Some((ObjectKey::PostscriptName, None))
    } else if name_id == NAME_ID_SUBFAMILY || name_id == NAME_ID_WWS_SUBFAMILY || name_id
        == NAME_ID_TYPOGRAPHIC_SUBFAMILY {
        Some((ObjectKey::Style, Some(ObjectKey::StyleLang)))
    } else {
        None
    }
}

/// Executable form of [`object_ids_spec`].
pub fn object_ids_for_name_id(name_id: u16) -> (r: Option<(ObjectKey, Option<ObjectKey>)>)
    ensures
        r == object_ids_spec(name_id),
{
    if name_id == NAME_ID_FAMILY || name_id == NAME_ID_WWS_FAMILY || name_id
        == NAME_ID_TYPOGRAPHIC_FAMILY {
        Some((ObjectKey::Family, Some(ObjectKey::FamilyLang)))
    } else if name_id == NAME_ID_FULL_NAME || name_id == NAME_ID_COMPATIBLE_FULL {
        Some((ObjectKey::FullName, Some(ObjectKey::FullNameLang)))
    } else if name_id == NAME_ID_POSTSCRIPT {
        Some((ObjectKey::PostscriptName, None))
    } else if name_id == NAME_ID_SUBFAMILY || name_id == NAME_ID_WWS_SUBFAMILY || name_id
        == NAME_ID_TYPOGRAPHIC_SUBFAMILY {
        Some((ObjectKey::Style, Some(ObjectKey::StyleLang)))
    } else {
        None
    }
}

/// Lowercases and strips spaces: the key under which one name value is
/// remembered for deduplication.
pub fn normalize_name(name: &Vec<u8>) -> (r: Vec<u8>)
    ensures
        r@ == normalize_spec(name@),
{
    normalize_bytes(name.as_slice())
}

/// The tag `"und"`, for records that carry no language.
pub open spec fn und_tag() -> Seq<u8> {
    seq![117u8, 110u8, 100u8]
}

/// Normalized language tag of a record: lowercased; `zh` variants keep
/// their region, all other tags are truncated to their primary subtag; a
/// missing tag becomes `"und"`.
pub open spec fn lang_norm_spec(lang: Option<Seq<u8>>) -> Seq<u8> {
    match lang {
        None => und_tag(),
        Some(l) => {
            let low = lower_spec(l);
            if starts_with_spec(low, seq![122u8, 104u8]) {
                low
            } else {
                match find_first_spec(low, 45) {
                    Some(i) => low.subrange(0, i),
                    None => low,
                }
            }
        },
    }
}

/// Executable form of [`lang_norm_spec`].
pub fn normalize_language(lang: &Option<Vec<u8>>) -> (r: Vec<u8>)
    ensures
        r@ == lang_norm_spec(match lang {
            Some(l) => Some(l@),
            None => None::<Seq<u8>>,
        }),
{
    match lang {
        None => {
            let mut r: Vec<u8> = Vec::new();
            r.push(117);
            r.push(110);
            r.push(100);
            proof {
                assert(r@ =~= und_tag());
            }
            r
        },
        Some(l) => {
            let low = to_lower(l.as_slice());
            let zh: [u8; 2] = [122, 104];
            if starts_with(low.as_slice(), zh.as_slice()) {
                proof {
                    assert(zh@ =~= seq![122u8, 104u8]);
                }
                low
            } else {
                proof {
                    assert(zh@ =~= seq![122u8, 104u8]);
                }
                match find_first(low.as_slice(), 45) {
                    Some(i) => {
                        let mut r: Vec<u8> = Vec::new();
                        let mut k: usize = 0;
                        while k < i
                            invariant
                                0 <= k <= i < low@.len(),
                                r@ == low@.subrange(0, k as int),
                            decreases i - k,
                        {
                            r.push(low[k]);
                            proof {
                                assert(low@.subrange(0, k + 1) =~= low@.subrange(
                                    0,
                                    k as int,
                                ).push(low@[k as int]));
                            }
                            k = k + 1;
                        }
                        r
                    },
                    None => low,
                }
            }
        },
    }
}

/// Whether a record's language is exactly the given tag.
pub open spec fn lang_is(l: Option<Seq<u8>>, t: Seq<u8>) -> bool {
    match l {
        Some(x) => x == t,
        None => false,
    }
}

/// The selection tiers of the English-or-first lookup: exact `en-US`
/// first, then `en`, then an untagged record, then any record.
pub open spec fn sel_pred(r: NameRecV, sel: u8) -> bool {
    if sel == 3 {
        lang_is(r.language, seq![101u8, 110u8, 45u8, 85u8, 83u8])
    } else if sel == 2 {
        lang_is(r.language, seq![101u8, 110u8])
    } else if sel == 1 {
        r.language is None
    } else {
        true
    }
}

/// Value of the first record with `name_id` satisfying tier `sel`.
pub open spec fn first_value_where(recs: Seq<NameRecV>, name_id: u16, sel: u8) -> Option<Seq<u8>>
    decreases recs.len(),
{
    if recs.len() == 0 {
        None
    } else if recs[0].name_id == name_id && sel_pred(recs[0], sel) {
        Some(recs[0].value)
    } else {
        first_value_where(recs.drop_first(), name_id, sel)
    }
}

/// The string a consumer of localized names sees for one name id: an
/// English record when the font has one, else the first record of that
/// id.
pub open spec fn english_or_first_spec(recs: Seq<NameRecV>, name_id: u16) -> Option<Seq<u8>> {
    if first_value_where(recs, name_id, 3) is Some {
        first_value_where(recs, name_id, 3)
    } else if first_value_where(recs, name_id, 2) is Some {
        first_value_where(recs, name_id, 2)
    } else if first_value_where(recs, name_id, 1) is Some {
        first_value_where(recs, name_id, 1)
    } else {
        first_value_where(recs, name_id, 0)
    }
}

proof fn lemma_first_value_at(recs: Seq<NameRecV>, name_id: u16, sel: u8, i: int)
    requires
        0 <= i <= recs.len(),
        forall|j: int| 0 <= j < i ==> !(recs[j].name_id == name_id && sel_pred(#[trigger] recs[j], sel)),
        i < recs.len() ==> recs[i].name_id == name_id && sel_pred(recs[i], sel),
    ensures
        first_value_where(recs, name_id, sel) == if i < recs.len() {
            Some(recs[i].value)
        } else {
            None::<Seq<u8>>
        },
    decreases i,
{
    if recs.len() == 0 {
    } else if i == 0 {
    } else {
        lemma_first_value_at(recs.drop_first(), name_id, sel, i - 1);
    }
}

/// Whether a record satisfies tier `sel`.
fn sel_pred_ex(rec: &NameRecord, sel: u8) -> (r: bool)
    ensures
        r == sel_pred(rec.deep_view(), sel),
{
    if sel == 3 {
        match &rec.language {
            Some(l) => {
                let en_us: [u8; 5] = [101, 110, 45, 85, 83];
                let e = bytes_eq(l.as_slice(), en_us.as_slice());
                proof {
                    assert(en_us@ =~= seq![101u8, 110u8, 45u8, 85u8, 83u8]);
                }
                e
            },
            None => false,
        }
    } else if sel == 2 {
        match &rec.language {
            Some(l) => {
                let en: [u8; 2] = [101, 110];
                let e = bytes_eq(l.as_slice(), en.as_slice());
                proof {
                    assert(en@ =~= seq![101u8, 110u8]);
                }
                e
            },
            None => false,
        }
    } else if sel == 1 {
        match &rec.language {
            Some(_) => false,
            None => true,
        }
    } else {
        true
    }
}

fn first_value_where_ex(records: &Vec<NameRecord>, name_id: u16, sel: u8) -> (r: Option<Vec<u8>>)
    ensures
        match r {
            Some(v) => first_value_where(records.deep_view(), name_id, sel) == Some(v@),
            None => first_value_where(records.deep_view(), name_id, sel) is None,
        },
{
    let ghost recs = records.deep_view();
    let mut i: usize = 0;
    while i < records.len()
        invariant
            0 <= i <= records@.len(),
            recs == records.deep_view(),
            forall|j: int|
                0 <= j < i ==> !(recs[j].name_id == name_id && sel_pred(#[trigger] recs[j], sel)),
        decreases records@.len() - i,
    {
        let rec = &records[i];
        if rec.name_id == name_id && sel_pred_ex(rec, sel) {
            proof {
                lemma_first_value_at(recs, name_id, sel, i as int);
            }
            return Some(copy_bytes(rec.value.as_slice()));
        }
        i = i + 1;
    }
    proof {
        lemma_first_value_at(recs, name_id, sel, recs.len() as int);
    }
    None
}

/// An English record's string for one name id, else the first record's,
/// else nothing.
pub fn english_or_first(records: &Vec<NameRecord>, name_id: u16) -> (r: Option<Vec<u8>>)
    ensures
        match r {
            Some(v) => english_or_first_spec(records.deep_view(), name_id) == Some(v@),
            None => english_or_first_spec(records.deep_view(), name_id) is None,
        },
{
    match first_value_where_ex(records, name_id, 3) {
        Some(v) => Some(v),
        None => match first_value_where_ex(records, name_id, 2) {
            Some(v) => Some(v),
            None => match first_value_where_ex(records, name_id, 1) {
                Some(v) => Some(v),
                None => first_value_where_ex(records, name_id, 0),
            },
        },
    }
}

/// English-or-first lookup over a font's records, as the mangling rules
/// see it: nothing when the font has no name table.
pub open spec fn font_string_spec(font: FontHandle, name_id: u16) -> Option<Seq<u8>> {
    english_or_first_spec(records_of(font), name_id)
}

fn font_string(font: &FontHandle, name_id: u16) -> (r: Option<Vec<u8>>)
    ensures
        match r {
            Some(v) => font_string_spec(*font, name_id) == Some(v@),
            None => font_string_spec(*font, name_id) is None,
        },
{
    match &font.name_records {
        Some(records) => english_or_first(records, name_id),
        None => None,
    }
}

/// The named instance the mangling rules target, if the index is valid.
pub open spec fn instance_rec_spec(font: FontHandle, named_instance_id: i32) -> Option<
    crate::font::InstanceRecord,
> {
    if 0 <= named_instance_id < font.instances@.len() {
        Some(font.instances@[named_instance_id as int])
    } else {
        None
    }
}

/// The postscript name of a named instance: the instance's own
/// postscript-name string when it has one, else `{prefix}-{subfamily}`
/// with spaces stripped, where the prefix is the font's variations
/// postscript-name prefix or else its plain family name.
pub open spec fn mangle_postscript_spec(font: FontHandle, named_instance_id: i32) -> Option<
    Seq<u8>,
> {
    match instance_rec_spec(font, named_instance_id) {
        None => None,
        Some(inst) => match inst.postscript_name_id {
            Some(ps_id) => cstr_filter(font_string_spec(font, ps_id)),
            None => {
                let prefix = if font_string_spec(font, NAME_ID_VARIATIONS_PS_PREFIX) is Some {
                    font_string_spec(font, NAME_ID_VARIATIONS_PS_PREFIX)
                } else {
                    font_string_spec(font, NAME_ID_FAMILY)
                };
                match prefix {
                    None => None,
                    Some(p) => match font_string_spec(font, inst.subfamily_name_id) {
                        None => None,
                        Some(sub) => cstr_filter(Some(strip_spaces_spec(p + seq![45u8] + sub))),
                    },
                }
            },
        },
    }
}

/// Executable form of [`mangle_postscript_spec`].
pub fn mangle_postscript_name_for_named_instance(font: &FontHandle, named_instance_id: i32) -> (r:
    Option<Vec<u8>>)
    ensures
        match r {
            Some(v) => mangle_postscript_spec(*font, named_instance_id) == Some(v@),
            None => mangle_postscript_spec(*font, named_instance_id) is None,
        },
{
    let inst = match font.instance_at(named_instance_id) {
        Some(inst) => inst,
        None => {
            return None;
        },
    };
    match inst.postscript_name_id {
        Some(ps_id) => match font_string(font, ps_id) {
            Some(v) => if contains_byte(v.as_slice(), 0) {
                None
            } else {
                Some(v)
            },
            None => None,
        },
        None => {
            let prefix = match font_string(font, NAME_ID_VARIATIONS_PS_PREFIX) {
                Some(p) => Some(p),
                None => font_string(font, NAME_ID_FAMILY),
            };
            match prefix {
                None => None,
                Some(p) => {
                    match font_string(font, inst.subfamily_name_id) {
                        None => None,
                        Some(sub) => {
                            let dash: [u8; 1] = [45];
                            let with_dash = concat_bytes(p.as_slice(), dash.as_slice());
                            let assembled = concat_bytes(with_dash.as_slice(), sub.as_slice());
                            proof {
                                assert(dash@ =~= seq![45u8]);
                                assert(assembled@ == p@ + seq![45u8] + sub@);
                            }
                            let stripped = strip_spaces(assembled.as_slice());
                            if contains_byte(stripped.as_slice(), 0) {
                                None
                            } else {
                                Some(stripped)
                            }
                        },
                    }
                },
            }
        },
    }
}

/// The subfamily name of a named instance: the instance's own subfamily
/// string.
pub open spec fn mangle_subfamily_spec(font: FontHandle, named_instance_id: i32) -> Option<
    Seq<u8>,
> {
    match instance_rec_spec(font, named_instance_id) {
        None => None,
        Some(inst) => cstr_filter(font_string_spec(font, inst.subfamily_name_id)),
    }
}

/// Executable form of [`mangle_subfamily_spec`].
pub fn mangle_subfamily_name_for_named_instance(font: &FontHandle, named_instance_id: i32) -> (r:
    Option<Vec<u8>>)
    ensures
        match r {
            Some(v) => mangle_subfamily_spec(*font, named_instance_id) == Some(v@),
            None => mangle_subfamily_spec(*font, named_instance_id) is None,
        },
{
    match font.instance_at(named_instance_id) {
        Some(inst) => match font_string(font, inst.subfamily_name_id) {
            Some(v) => if contains_byte(v.as_slice(), 0) {
                None
            } else {
                Some(v)
            },
            None => None,
        },
        None => None,
    }
}

/// The full name of a named instance: `{family} {subfamily}`.
pub open spec fn mangle_full_spec(font: FontHandle, named_instance_id: i32) -> Option<Seq<u8>> {
    match instance_rec_spec(font, named_instance_id) {
        None => None,
        Some(inst) => match font_string_spec(font, NAME_ID_FAMILY) {
            None => None,
            Some(fam) => match font_string_spec(font, inst.subfamily_name_id) {
                None => None,
                Some(sub) => cstr_filter(Some(fam + seq![32u8] + sub)),
            },
        },
    }
}

/// Executable form of [`mangle_full_spec`].
pub fn mangle_full_name_for_named_instance(font: &FontHandle, named_instance_id: i32) -> (r:
    Option<Vec<u8>>)
    ensures
        match r {
            Some(v) => mangle_full_spec(*font, named_instance_id) == Some(v@),
            None => mangle_full_spec(*font, named_instance_id) is None,
        },
{
    let inst = match font.instance_at(named_instance_id) {
        Some(inst) => inst,
        None => {
            return None;
        },
    };
    let fam = match font_string(font, NAME_ID_FAMILY) {
        Some(f) => f,
        None => {
            return None;
        },
    };
    match font_string(font, inst.subfamily_name_id) {
        None => None,
        Some(sub) => {
            let space: [u8; 1] = [32];
            let with_space = concat_bytes(fam.as_slice(), space.as_slice());
            let full = concat_bytes(with_space.as_slice(), sub.as_slice());
            proof {
                assert(space@ =~= seq![32u8]);
                assert(full@ == fam@ + seq![32u8] + sub@);
            }
            if contains_byte(full.as_slice(), 0) {
                None
            } else {
                Some(full)
            }
        },
    }
}

/// The generic family a family name's text implies: the first of the
/// tokens `mono`, `sans`, `serif`, `emoji`, `math` found in the
/// lowercased name, else unknown.
pub open spec fn generic_family_spec(family_name: Seq<u8>) -> GenericFamily {
    let low = lower_spec(family_name);
    if contains_seq_spec(low, seq![109u8, 111u8, 110u8, 111u8]) {
        GenericFamily::Mono
    } else if contains_seq_spec(low, seq![115u8, 97u8, 110u8, 115u8]) {
        GenericFamily::Sans
    } else if contains_seq_spec(low, seq![115u8, 101u8, 114u8, 105u8, 102u8]) {
        GenericFamily::Serif
    } else if contains_seq_spec(low, seq![101u8, 109u8, 111u8, 106u8, 105u8]) {
        GenericFamily::Emoji
    } else if contains_seq_spec(low, seq![109u8, 97u8, 116u8, 104u8]) {
        GenericFamily::Math
    } else {
        GenericFamily::Unknown
    }
}

/// Executable form of [`generic_family_spec`].
pub fn get_generic_family(family_name: &Vec<u8>) -> (r: GenericFamily)
    ensures
        r == generic_family_spec(family_name@),
{
    let low = to_lower(family_name.as_slice());
    let mono: [u8; 4] = [109, 111, 110, 111];
    let sans: [u8; 4] = [115, 97, 110, 115];
    let serif: [u8; 5] = [115, 101, 114, 105, 102];
    let emoji: [u8; 5] = [101, 109, 111, 106, 105];
    let math: [u8; 4] = [109, 97, 116, 104];
    proof {
        assert(mono@ =~= seq![109u8, 111u8, 110u8, 111u8]);
        assert(sans@ =~= seq![115u8, 97u8, 110u8, 115u8]);
        assert(serif@ =~= seq![115u8, 101u8, 114u8, 105u8, 102u8]);
        assert(emoji@ =~= seq![101u8, 109u8, 111u8, 106u8, 105u8]);
        assert(math@ =~= seq![109u8, 97u8, 116u8, 104u8]);
    }
    if contains_seq(low.as_slice(), mono.as_slice()) {
        GenericFamily::Mono
    } else if contains_seq(low.as_slice(), sans.as_slice()) {
        GenericFamily::Sans
    } else if contains_seq(low.as_slice(), serif.as_slice()) {
        GenericFamily::Serif
    } else if contains_seq(low.as_slice(), emoji.as_slice()) {
        GenericFamily::Emoji
    } else if contains_seq(low.as_slice(), math.as_slice()) {
        GenericFamily::Math
    } else {
        GenericFamily::Unknown
    }
}

/// The path with trailing separators removed: path normalization
/// ignores them when naming the final component.
pub open spec fn strip_trailing_seps(path: Seq<u8>) -> Seq<u8>
    decreases path.len(),
{
    if path.len() > 0 && path.last() == 47 {
        strip_trailing_seps(path.drop_last())
    } else {
        path
    }
}

proof fn lemma_strip_trailing_at(s: Seq<u8>, i: int)
    requires
        0 <= i <= s.len(),
        forall|j: int| i <= j < s.len() ==> s[j] == 47,
        i > 0 ==> s[i - 1] != 47,
    ensures
        strip_trailing_seps(s) == s.subrange(0, i),
    decreases s.len() - i,
{
    if i == s.len() {
        assert(strip_trailing_seps(s) =~= s.subrange(0, i));
    } else {
        assert(s.last() == 47);
        lemma_strip_trailing_at(s.drop_last(), i);
        assert(s.drop_last().subrange(0, i) =~= s.subrange(0, i));
    }
}

/// The base name of a file path — the final component, with trailing
/// separators ignored and the extension stripped. Nothing when no
/// component remains or it is a relative-directory name.
pub open spec fn file_stem_spec(path: Seq<u8>) -> Option<Seq<u8>> {
    let trimmed = strip_trailing_seps(path);
    let base = match find_last_spec(trimmed, 47) {
        Some(i) => trimmed.subrange(i + 1, trimmed.len() as int),
        None => trimmed,
    };
    if base.len() == 0 {
        None
    } else if base == seq![46u8] || base == seq![46u8, 46u8] {
        None
    } else {
        match find_last_spec(base, 46) {
            Some(j) => if j > 0 {
                Some(base.subrange(0, j))
            } else {
                Some(base)
            },
            None => Some(base),
        }
    }
}

/// Executable form of [`file_stem_spec`].
pub fn file_stem(path: &Vec<u8>) -> (r: Option<Vec<u8>>)
    ensures
        match r {
            Some(v) => file_stem_spec(path@) == Some(v@),
            None => file_stem_spec(path@) is None,
        },
{
    let mut end: usize = path.len();
    while end > 0 && path[end - 1] == 47
        invariant
            0 <= end <= path@.len(),
            forall|j: int| end <= j < path@.len() ==> path@[j] == 47,
        decreases end,
    {
        end = end - 1;
    }
    proof {
        lemma_strip_trailing_at(path@, end as int);
    }
    let ghost trimmed = strip_trailing_seps(path@);
    let mut start: usize = end;
    while start > 0 && path[start - 1] != 47
        invariant
            0 <= start <= end <= path@.len(),
            trimmed == path@.subrange(0, end as int),
            forall|j: int| start <= j < end ==> path@[j] != 47,
        decreases start,
    {
        start = start - 1;
    }
    proof {
        assert forall|j: int| start <= j < end implies trimmed[j] != 47 by {
            assert(trimmed[j] == path@[j]);
        }
        if start > 0 {
            assert(trimmed[start - 1] == path@[start - 1]);
            crate::bytestr::lemma_find_last_at(trimmed, 47, start - 1);
        } else {
            crate::bytestr::lemma_find_last_at(trimmed, 47, -1);
        }
    }
    let mut base: Vec<u8> = Vec::new();
    let mut k: usize = start;
    while k < end
        invariant
            start <= k <= end <= path@.len(),
            base@ == path@.subrange(start as int, k as int),
        decreases end - k,
    {
        base.push(path[k]);
        proof {
            let pk = path@[k as int];
            assert(path@.subrange(start as int, k + 1) =~= path@.subrange(
                start as int,
                k as int,
            ).push(pk));
        }
        k = k + 1;
    }
    proof {
        if start > 0 {
            assert(trimmed.subrange(start as int, trimmed.len() as int) =~= path@.subrange(
                start as int,
                end as int,
            ));
        } else {
            assert(trimmed =~= path@.subrange(0, end as int));
        }
    }
    if base.len() == 0 {
        return None;
    }
    let dot: [u8; 1] = [46];
    let dotdot: [u8; 2] = [46, 46];
    proof {
        assert(dot@ =~= seq![46u8]);
        assert(dotdot@ =~= seq![46u8, 46u8]);
    }
    if bytes_eq(base.as_slice(), dot.as_slice()) || bytes_eq(base.as_slice(), dotdot.as_slice()) {
        return None;
    }
    match find_last(base.as_slice(), 46) {
        Some(j) => {
            if j > 0 {
                let mut b: Vec<u8> = Vec::new();
                let mut k2: usize = 0;
                while k2 < j
                    invariant
                        0 <= k2 <= j < base@.len(),
                        b@ == base@.subrange(0, k2 as int),
                    decreases j - k2,
                {
                    b.push(base[k2]);
                    proof {
                        assert(base@.subrange(0, k2 + 1) =~= base@.subrange(0, k2 as int).push(
                            base@[k2 as int],
                        ));
                    }
                    k2 = k2 + 1;
                }
                Some(b)
            } else {
                Some(base)
            }
        },
        None => Some(base),
    }
}

/// One remembered deduplication key: an attribute slot together with a
/// normalized name value.
pub struct SeenEntry {
    pub object: ObjectKey,
    pub norm: Vec<u8>,
}

/// Mathematical view of a [`SeenEntry`].
pub struct SeenV {
    pub object: ObjectKey,
    pub norm: Seq<u8>,
}

impl DeepView for SeenEntry {
    type V = SeenV;

    open spec fn deep_view(&self) -> SeenV {
        SeenV { object: self.object, norm: self.norm@ }
    }
}

/// State of one name-resolution pass: the elements appended so far and
/// the deduplication keys remembered so far.
pub struct NameState {
    pub elems: Seq<ElemView>,
    pub seen: Seq<SeenV>,
}

/// The name ids the resolver consumes, in their fixed priority order:
/// the typographic, plain and WWS variants of the family name, then of
/// the subfamily name, then full and compatible-full names, then the
/// postscript name.
pub open spec fn priority_ids() -> Seq<u16> {
    seq![
        NAME_ID_TYPOGRAPHIC_FAMILY,
        NAME_ID_FAMILY,
        NAME_ID_WWS_FAMILY,
        NAME_ID_TYPOGRAPHIC_SUBFAMILY,
        NAME_ID_SUBFAMILY,
        NAME_ID_WWS_SUBFAMILY,
        NAME_ID_FULL_NAME,
        NAME_ID_COMPATIBLE_FULL,
        NAME_ID_POSTSCRIPT,
    ]
}

fn priority_ids_ex() -> (r: Vec<u16>)
    ensures
        r@ == priority_ids(),
{
    let mut r: Vec<u16> = Vec::new();
    r.push(NAME_ID_TYPOGRAPHIC_FAMILY);
    r.push(NAME_ID_FAMILY);
    r.push(NAME_ID_WWS_FAMILY);
    r.push(NAME_ID_TYPOGRAPHIC_SUBFAMILY);
    r.push(NAME_ID_SUBFAMILY);
    r.push(NAME_ID_WWS_SUBFAMILY);
    r.push(NAME_ID_FULL_NAME);
    r.push(NAME_ID_COMPATIBLE_FULL);
    r.push(NAME_ID_POSTSCRIPT);
    proof {
        assert(r@ =~= priority_ids());
    }
    r
}

/// The records carrying one name id, in record order.
pub open spec fn filter_id(recs: Seq<NameRecV>, name_id: u16) -> Seq<NameRecV>
    decreases recs.len(),
{
    if recs.len() == 0 {
        Seq::empty()
    } else {
        let r = filter_id(recs.drop_last(), name_id);
        if recs.last().name_id == name_id {
            r.push(recs.last())
        } else {
            r
        }
    }
}

/// The records regrouped in priority order: all records of the first
/// priority id, then all of the second, and so on.
pub open spec fn reorder_rec(recs: Seq<NameRecV>, pids: Seq<u16>) -> Seq<NameRecV>
    decreases pids.len(),
{
    if pids.len() == 0 {
        Seq::empty()
    } else {
        filter_id(recs, pids[0]) + reorder_rec(recs, pids.drop_first())
    }
}

proof fn lemma_reorder_snoc(recs: Seq<NameRecV>, pids: Seq<u16>, p: u16)
    ensures
        reorder_rec(recs, pids.push(p)) == reorder_rec(recs, pids) + filter_id(recs, p),
    decreases pids.len(),
{
    if pids.len() == 0 {
        assert(pids.push(p)[0] == p);
        assert(pids.push(p).drop_first() =~= Seq::<u16>::empty());
        assert(reorder_rec(recs, Seq::<u16>::empty()) == Seq::<NameRecV>::empty());
        assert(filter_id(recs, p) + Seq::<NameRecV>::empty() =~= filter_id(recs, p));
        assert(Seq::<NameRecV>::empty() + filter_id(recs, p) =~= filter_id(recs, p));
    } else {
        assert(pids.push(p)[0] == pids[0]);
        assert(pids.push(p).drop_first() =~= pids.drop_first().push(p));
        lemma_reorder_snoc(recs, pids.drop_first(), p);
        assert(filter_id(recs, pids[0]) + (reorder_rec(recs, pids.drop_first()) + filter_id(
            recs,
            p,
        )) =~= (filter_id(recs, pids[0]) + reorder_rec(recs, pids.drop_first())) + filter_id(
            recs,
            p,
        ));
    }
}

/// A name value is usable only where the sink's C strings can carry it:
/// a value holding a NUL byte is treated as absent.
pub open spec fn cstr_filter(o: Option<Seq<u8>>) -> Option<Seq<u8>> {
    match o {
        Some(s) => if s.contains(0u8) {
            None
        } else {
            Some(s)
        },
        None => None,
    }
}

/// Name of a record before any instance mangling: the trimmed value,
/// with spaces stripped for the postscript slot; an empty raw value, or
/// a processed value that cannot form a C string, yields none.
pub open spec fn raw_name_spec(rec: NameRecV, kobj: ObjectKey) -> Option<Seq<u8>> {
    if rec.value.len() == 0 {
        None
    } else {
        let t = trim_spec(rec.value);
        if kobj == ObjectKey::PostscriptName {
            cstr_filter(Some(strip_spaces_spec(t)))
        } else {
            cstr_filter(Some(t))
        }
    }
}

/// The first of two optional names.
pub open spec fn or_name(a: Option<Seq<u8>>, b: Option<Seq<u8>>) -> Option<Seq<u8>> {
    if a is Some {
        a
    } else {
        b
    }
}

/// Name ids whose attributes are suppressed in variable mode: subfamily,
/// full and postscript names are not meaningful for an unresolved
/// design-space range; only the family-like names are retained.
pub open spec fn suppressed_for_variable(name_id: u16) -> bool {
    name_id == NAME_ID_SUBFAMILY || name_id == NAME_ID_WWS_SUBFAMILY || name_id
        == NAME_ID_TYPOGRAPHIC_SUBFAMILY || name_id == NAME_ID_FULL_NAME || name_id
        == NAME_ID_COMPATIBLE_FULL || name_id == NAME_ID_POSTSCRIPT
}

/// The name a record contributes under one instance mode: named
/// instances replace postscript, subfamily and full names by their
/// mangled forms, falling back to the record's own value where mangling
/// cannot resolve; variable mode suppresses the instance-specific slots.
pub open spec fn mangled_name_spec(
    font: FontHandle,
    mode: InstanceMode,
    name_id: u16,
    name0: Option<Seq<u8>>,
) -> Option<Seq<u8>> {
    match mode {
        InstanceMode::Named(instance) => if name_id == NAME_ID_POSTSCRIPT {
            or_name(mangle_postscript_spec(font, instance), name0)
        } else if name_id == NAME_ID_SUBFAMILY {
            or_name(mangle_subfamily_spec(font, instance), name0)
        } else if name_id == NAME_ID_FULL_NAME {
            or_name(mangle_full_spec(font, instance), name0)
        } else {
            name0
        },
        InstanceMode::Variable => if suppressed_for_variable(name_id) {
            None
        } else {
            name0
        },
        InstanceMode::Default => name0,
    }
}

/// Processing of one record: an unmapped id contributes nothing; an
/// empty or suppressed name contributes nothing; a repeated
/// (slot, normalized value) pair is dropped; otherwise the name element
/// is appended, followed by its language element where the slot carries
/// one, and the pair is remembered.
pub open spec fn step_spec(
    font: FontHandle,
    mode: InstanceMode,
    st: NameState,
    rec: NameRecV,
) -> NameState {
    match object_ids_spec(rec.name_id) {
        None => st,
        Some(ids) => {
            let name1 = mangled_name_spec(font, mode, rec.name_id, raw_name_spec(rec, ids.0));
            let lang = lang_norm_spec(rec.language);
            match name1 {
                None => st,
                Some(n) => if n.len() == 0 {
                    st
                } else {
                    let key = SeenV { object: ids.0, norm: normalize_spec(n) };
                    if st.seen.contains(key) {
                        st
                    } else {
                        NameState {
                            elems: st.elems + seq![text_elem(ids.0, n)] + match ids.1 {
                                Some(lo) => seq![text_elem(lo, lang)],
                                None => Seq::empty(),
                            },
                            seen: st.seen.push(key),
                        }
                    }
                },
            }
        },
    }
}

/// The state after processing a record sequence in order.
pub open spec fn fold_records(
    font: FontHandle,
    mode: InstanceMode,
    st: NameState,
    recs: Seq<NameRecV>,
) -> NameState
    decreases recs.len(),
{
    if recs.len() == 0 {
        st
    } else {
        fold_records(font, mode, step_spec(font, mode, st, recs[0]), recs.drop_first())
    }
}

proof fn lemma_fold_snoc(font: FontHandle, mode: InstanceMode, st: NameState, recs: Seq<NameRecV>, rec: NameRecV)
    ensures
        fold_records(font, mode, st, recs.push(rec)) == step_spec(
            font,
            mode,
            fold_records(font, mode, st, recs),
            rec,
        ),
    decreases recs.len(),
{
    if recs.len() == 0 {
        assert(recs.push(rec)[0] == rec);
        assert(recs.push(rec).drop_first() =~= Seq::<NameRecV>::empty());
        assert(fold_records(font, mode, st, recs.push(rec)) == fold_records(
            font,
            mode,
            step_spec(font, mode, st, rec),
            Seq::<NameRecV>::empty(),
        ));
        assert(fold_records(font, mode, step_spec(font, mode, st, rec), Seq::<NameRecV>::empty())
            == step_spec(font, mode, st, rec));
        assert(fold_records(font, mode, st, recs) == st);
    } else {
        assert(recs.push(rec)[0] == recs[0]);
        assert(recs.push(rec).drop_first() =~= recs.drop_first().push(rec));
        lemma_fold_snoc(font, mode, step_spec(font, mode, st, recs[0]), recs.drop_first(), rec);
    }
}

/// Whether a deduplication key has been remembered.
fn seen_contains(seen: &Vec<SeenEntry>, object: ObjectKey, norm: &Vec<u8>) -> (r: bool)
    ensures
        r == seen.deep_view().contains(SeenV { object, norm: norm@ }),
{
    let ghost key = SeenV { object, norm: norm@ };
    let mut i: usize = 0;
    while i < seen.len()
        invariant
            0 <= i <= seen@.len(),
            key == (SeenV { object, norm: norm@ }),
            forall|j: int| 0 <= j < i ==> seen.deep_view()[j] != key,
        decreases seen@.len() - i,
    {
        let entry = &seen[i];
        if entry.object == object && bytes_eq(entry.norm.as_slice(), norm.as_slice()) {
            proof {
                assert(seen.deep_view()[i as int] == key);
            }
            return true;
        }
        i = i + 1;
    }
    proof {
        if seen.deep_view().contains(key) {
            let w = choose|j: int| 0 <= j < seen.deep_view().len() && seen.deep_view()[j] == key;
            assert(seen.deep_view()[w] != key);
        }
    }
    false
}

fn push_seen(seen: &mut Vec<SeenEntry>, e: SeenEntry)
    ensures
        final(seen).deep_view() == old(seen).deep_view().push(e.deep_view()),
{
    seen.push(e);
    proof {
        assert(seen.deep_view() =~= old(seen).deep_view().push(e.deep_view()));
    }
}

/// The elements after one [`step_spec`].
pub open spec fn step_elems(
    font: FontHandle,
    mode: InstanceMode,
    oldp: Seq<ElemView>,
    olds: Seq<SeenV>,
    rec: NameRecV,
) -> Seq<ElemView> {
    step_spec(font, mode, NameState { elems: oldp, seen: olds }, rec).elems
}

/// The remembered keys after one [`step_spec`].
pub open spec fn step_seen(
    font: FontHandle,
    mode: InstanceMode,
    olds: Seq<SeenV>,
    rec: NameRecV,
) -> Seq<SeenV> {
    step_spec(font, mode, NameState { elems: Seq::empty(), seen: olds }, rec).seen
}

/// Processes one name record under one instance mode, appending its
/// elements and remembering its deduplication key as [`step_spec`] says.
fn process_record(
    font: &FontHandle,
    mode: InstanceMode,
    rec: &NameRecord,
    pattern: &mut Vec<PatternElement>,
    seen: Vec<SeenEntry>,
) -> (news: Vec<SeenEntry>)
    ensures
        final(pattern).deep_view() == step_elems(
            *font,
            mode,
            old(pattern).deep_view(),
            seen.deep_view(),
            rec.deep_view(),
        ),
        news.deep_view() == step_seen(*font, mode, seen.deep_view(), rec.deep_view()),
{
    let ghost seen0 = seen.deep_view();
    let mut seen = seen;
    let ids = match object_ids_for_name_id(rec.name_id) {
        Some(ids) => ids,
        None => {
            return seen;
        },
    };
    let (kobj, lobj) = ids;
    let name0: Option<Vec<u8>> = if rec.value.len() == 0 {
        None
    } else {
        let t = trim_bytes(rec.value.as_slice());
        let t2 = if kobj == ObjectKey::PostscriptName {
            strip_spaces(t.as_slice())
        } else {
            t
        };
        if contains_byte(t2.as_slice(), 0) {
            None
        } else {
            Some(t2)
        }
    };
    let name1: Option<Vec<u8>> = match mode {
        InstanceMode::Named(instance) => {
            if rec.name_id == NAME_ID_POSTSCRIPT {
                match mangle_postscript_name_for_named_instance(font, instance) {
                    Some(v) => Some(v),
                    None => name0,
                }
            } else if rec.name_id == NAME_ID_SUBFAMILY {
                match mangle_subfamily_name_for_named_instance(font, instance) {
                    Some(v) => Some(v),
                    None => name0,
                }
            } else if rec.name_id == NAME_ID_FULL_NAME {
                match mangle_full_name_for_named_instance(font, instance) {
                    Some(v) => Some(v),
                    None => name0,
                }
            } else {
                name0
            }
        },
        InstanceMode::Variable => {
            if rec.name_id == NAME_ID_SUBFAMILY || rec.name_id == NAME_ID_WWS_SUBFAMILY
                || rec.name_id == NAME_ID_TYPOGRAPHIC_SUBFAMILY || rec.name_id
                == NAME_ID_FULL_NAME || rec.name_id == NAME_ID_COMPATIBLE_FULL || rec.name_id
                == NAME_ID_POSTSCRIPT {
                None
            } else {
                name0
            }
        },
        InstanceMode::Default => name0,
    };
    let n = match name1 {
        Some(n) => n,
        None => {
            return seen;
        },
    };
    if n.len() == 0 {
        return seen;
    }
    let norm = normalize_name(&n);
    if seen_contains(&seen, kobj, &norm) {
        return seen;
    }
    push_seen(&mut seen, SeenEntry { object: kobj, norm });
    push_elem(pattern, PatternElement { object: kobj, value: AttributeValue::Text(n) });
    if let Some(lo) = lobj {
        let language = normalize_language(&rec.language);
        push_elem(pattern, PatternElement { object: lo, value: AttributeValue::Text(language) });
    }
    proof {
        assert(pattern.deep_view() =~= step_elems(
            *font,
            mode,
            old(pattern).deep_view(),
            seen0,
            rec.deep_view(),
        ));
    }
    seen
}


/// The language tag attached to the fallback family name.
pub open spec fn en_tag() -> Seq<u8> {
    seq![101u8, 110u8]
}

/// Whether any element fills the family slot.
pub open spec fn has_family_spec(s: Seq<ElemView>) -> bool {
    exists|i: int| 0 <= i < s.len() && (#[trigger] s[i]).object == ObjectKey::Family
}

/// Whether an element is a family name whose text implies a generic
/// family.
pub open spec fn family_generic_hit(e: ElemView) -> bool {
    e.object == ObjectKey::Family && match e.value {
        ValueView::Text(v) => generic_family_spec(v) != GenericFamily::Unknown,
        _ => false,
    }
}

/// The generic family an element's text implies.
pub open spec fn elem_generic(e: ElemView) -> GenericFamily {
    match e.value {
        ValueView::Text(v) => generic_family_spec(v),
        _ => GenericFamily::Unknown,
    }
}

/// The classification of a descriptor: the first family name whose text
/// implies a generic family decides; none deciding means unknown.
pub open spec fn generic_of_elems(s: Seq<ElemView>) -> GenericFamily
    decreases s.len(),
{
    if s.len() == 0 {
        GenericFamily::Unknown
    } else if family_generic_hit(s[0]) {
        elem_generic(s[0])
    } else {
        generic_of_elems(s.drop_first())
    }
}

/// The classification element appended after the family names are final.
pub open spec fn generic_elem_of(s: Seq<ElemView>) -> ElemView {
    ElemView { object: ObjectKey::GenericFamily, value: ValueView::Generic(generic_of_elems(s)) }
}

proof fn lemma_generic_at(s: Seq<ElemView>, i: int)
    requires
        0 <= i <= s.len(),
        forall|j: int| 0 <= j < i ==> !family_generic_hit(#[trigger] s[j]),
        i < s.len() ==> family_generic_hit(s[i]),
    ensures
        generic_of_elems(s) == if i < s.len() {
            elem_generic(s[i])
        } else {
            GenericFamily::Unknown
        },
    decreases i,
{
    if s.len() == 0 {
    } else if i == 0 {
    } else {
        lemma_generic_at(s.drop_first(), i - 1);
    }
}

/// Whether the descriptor under construction already carries a family
/// name.
fn has_family_elem(pattern: &Vec<PatternElement>) -> (r: bool)
    ensures
        r == has_family_spec(pattern.deep_view()),
{
    let mut i: usize = 0;
    while i < pattern.len()
        invariant
            0 <= i <= pattern@.len(),
            forall|j: int|
                0 <= j < i ==> (#[trigger] pattern.deep_view()[j]).object != ObjectKey::Family,
        decreases pattern@.len() - i,
    {
        let is_fam = match pattern[i].object {
            ObjectKey::Family => true,
            _ => false,
        };
        if is_fam {
            proof {
                assert(pattern.deep_view()[i as int].object == ObjectKey::Family);
            }
            return true;
        }
        proof {
            assert(pattern.deep_view()[i as int].object != ObjectKey::Family);
        }
        i = i + 1;
    }
    proof {
        if has_family_spec(pattern.deep_view()) {
            let w = choose|j: int|
                0 <= j < pattern.deep_view().len() && (#[trigger] pattern.deep_view()[j]).object
                    == ObjectKey::Family;
            assert(pattern.deep_view()[w].object != ObjectKey::Family);
        }
    }
    false
}

/// The generic-family classification of the descriptor under
/// construction.
fn generic_of_pattern(pattern: &Vec<PatternElement>) -> (r: GenericFamily)
    ensures
        r == generic_of_elems(pattern.deep_view()),
{
    let ghost dv = pattern.deep_view();
    let mut i: usize = 0;
    while i < pattern.len()
        invariant
            0 <= i <= pattern@.len(),
            dv == pattern.deep_view(),
            forall|j: int| 0 <= j < i ==> !family_generic_hit(#[trigger] dv[j]),
        decreases pattern@.len() - i,
    {
        let e = &pattern[i];
        let is_fam = match e.object {
            ObjectKey::Family => true,
            _ => false,
        };
        if is_fam {
            match &e.value {
                AttributeValue::Text(v) => {
                    let g = get_generic_family(v);
                    let is_unknown = match g {
                        GenericFamily::Unknown => true,
                        _ => false,
                    };
                    if !is_unknown {
                        proof {
                            assert(dv[i as int] == e.deep_view());
                            assert(family_generic_hit(dv[i as int]));
                            assert(elem_generic(dv[i as int]) == g);
                            lemma_generic_at(dv, i as int);
                        }
                        return g;
                    }
                    proof {
                        assert(dv[i as int] == e.deep_view());
                        assert(!family_generic_hit(dv[i as int]));
                    }
                },
                _ => {
                    proof {
                        assert(dv[i as int] == e.deep_view());
                        assert(!family_generic_hit(dv[i as int]));
                    }
                },
            }
        } else {
            proof {
                assert(dv[i as int] == e.deep_view());
                assert(!family_generic_hit(dv[i as int]));
            }
        }
        i = i + 1;
    }
    proof {
        lemma_generic_at(dv, dv.len() as int);
    }
    GenericFamily::Unknown
}

/// The state after the whole name table is processed for one mode,
/// starting from the elements already in the descriptor.
pub open spec fn names_body_state(
    font: FontHandle,
    mode: InstanceMode,
    oldp: Seq<ElemView>,
) -> NameState {
    fold_records(
        font,
        mode,
        NameState { elems: oldp, seen: Seq::empty() },
        reorder_rec(records_of(font), priority_ids()),
    )
}

/// The descriptor elements after name resolution: the name and language
/// elements the records contribute, the filename-derived fallback family
/// when no record gave one, and the generic-family classification. On a
/// missing name table the descriptor is unchanged; on a failed fallback
/// the elements appended so far remain.
pub open spec fn add_names_elems(
    font: FontHandle,
    file: Seq<u8>,
    mode: InstanceMode,
    oldp: Seq<ElemView>,
) -> Seq<ElemView> {
    if font.name_records is None {
        oldp
    } else {
        let all0 = names_body_state(font, mode, oldp).elems;
        if !has_family_spec(all0) {
            match file_stem_spec(file) {
                None => all0,
                Some(stem) => {
                    let all1 = all0 + seq![
                        text_elem(ObjectKey::Family, stem),
                        text_elem(ObjectKey::FamilyLang, en_tag()),
                    ];
                    all1 + seq![generic_elem_of(all1)]
                },
            }
        } else {
            all0 + seq![generic_elem_of(all0)]
        }
    }
}

/// Whether name resolution succeeds: it fails only when the font has no
/// name table, or when no record gave a family name and the file path
/// yields no stem to fall back on.
pub open spec fn add_names_result(
    font: FontHandle,
    file: Seq<u8>,
    mode: InstanceMode,
    oldp: Seq<ElemView>,
) -> Result<(), NameAddingError> {
    if font.name_records is None {
        Err(NameAddingError::NoNameTable)
    } else if !has_family_spec(names_body_state(font, mode, oldp).elems) && file_stem_spec(
        file,
    ) is None {
        Err(NameAddingError::NoFamilyName)
    } else {
        Ok(())
    }
}

proof fn lemma_step_seen_indep(font: FontHandle, mode: InstanceMode, st: NameState, rec: NameRecV)
    ensures
        step_spec(font, mode, st, rec).seen == step_seen(font, mode, st.seen, rec),
{
}

/// Appends the name attributes of one instance mode: record names in
/// priority order, language-normalized and deduplicated, mangled for a
/// named instance, with the filename fallback family and the
/// generic-family classification.
pub fn add_names(
    font: &FontHandle,
    font_file: &Vec<u8>,
    instance_mode: InstanceMode,
    pattern: &mut Vec<PatternElement>,
) -> (r: Result<(), NameAddingError>)
    ensures
        final(pattern).deep_view() == add_names_elems(
            *font,
            font_file@,
            instance_mode,
            old(pattern).deep_view(),
        ),
        r == add_names_result(*font, font_file@, instance_mode, old(pattern).deep_view()),
{
    let records = match &font.name_records {
        Some(records) => records,
        None => {
            return Err(NameAddingError::NoNameTable);
        },
    };
    let ghost recsv = records.deep_view();
    proof {
        assert(recsv == records_of(*font));
    }
    let ghost st0 = NameState { elems: old(pattern).deep_view(), seen: Seq::<SeenV>::empty() };
    let pids = priority_ids_ex();
    let mut seen: Vec<SeenEntry> = Vec::new();
    proof {
        assert(seen.deep_view() =~= Seq::<SeenV>::empty());
        assert(pids@.take(0) =~= Seq::<u16>::empty());
        assert(reorder_rec(recsv, Seq::<u16>::empty()) == Seq::<NameRecV>::empty());
        assert(fold_records(*font, instance_mode, st0, Seq::<NameRecV>::empty()) == st0);
    }
    let mut p: usize = 0;
    while p < pids.len()
        invariant
            0 <= p <= pids@.len(),
            pids@ == priority_ids(),
            recsv == records.deep_view(),
            st0 == (NameState { elems: old(pattern).deep_view(), seen: Seq::<SeenV>::empty() }),
            pattern.deep_view() == fold_records(
                *font,
                instance_mode,
                st0,
                reorder_rec(recsv, pids@.take(p as int)),
            ).elems,
            seen.deep_view() == fold_records(
                *font,
                instance_mode,
                st0,
                reorder_rec(recsv, pids@.take(p as int)),
            ).seen,
        decreases pids@.len() - p,
    {
        let pid = pids[p];
        let mut k: usize = 0;
        while k < records.len()
            invariant
                0 <= k <= records@.len(),
                0 <= p < pids@.len(),
                pid == pids@[p as int],
                pids@ == priority_ids(),
                recsv == records.deep_view(),
                st0 == (NameState {
                    elems: old(pattern).deep_view(),
                    seen: Seq::<SeenV>::empty(),
                }),
                pattern.deep_view() == fold_records(
                    *font,
                    instance_mode,
                    st0,
                    reorder_rec(recsv, pids@.take(p as int)) + filter_id(
                        recsv.take(k as int),
                        pid,
                    ),
                ).elems,
                seen.deep_view() == fold_records(
                    *font,
                    instance_mode,
                    st0,
                    reorder_rec(recsv, pids@.take(p as int)) + filter_id(
                        recsv.take(k as int),
                        pid,
                    ),
                ).seen,
            decreases records@.len() - k,
        {
            let ghost combined = reorder_rec(recsv, pids@.take(p as int)) + filter_id(
                recsv.take(k as int),
                pid,
            );
            let rec = &records[k];
            proof {
                assert(rec.deep_view() == recsv[k as int]);
                assert(recsv.take(k + 1).drop_last() =~= recsv.take(k as int));
                assert(recsv.take(k + 1).last() == recsv[k as int]);
            }
            if rec.name_id == pid {
                seen = process_record(font, instance_mode, rec, pattern, seen);
                proof {
                    assert(filter_id(recsv.take(k + 1), pid) == filter_id(
                        recsv.take(k as int),
                        pid,
                    ).push(recsv[k as int]));
                    assert(reorder_rec(recsv, pids@.take(p as int)) + filter_id(
                        recsv.take(k + 1),
                        pid,
                    ) =~= combined.push(recsv[k as int]));
                    lemma_fold_snoc(*font, instance_mode, st0, combined, recsv[k as int]);
                    let stc = fold_records(*font, instance_mode, st0, combined);
                    assert(stc == (NameState { elems: stc.elems, seen: stc.seen }));
                    lemma_step_seen_indep(*font, instance_mode, stc, recsv[k as int]);
                }
            } else {
                proof {
                    assert(filter_id(recsv.take(k + 1), pid) == filter_id(
                        recsv.take(k as int),
                        pid,
                    ));
                }
            }
            k = k + 1;
        }
        proof {
            assert(recsv.take(recsv.len() as int) =~= recsv);
            assert(pids@.take(p + 1) =~= pids@.take(p as int).push(pids@[p as int]));
            lemma_reorder_snoc(recsv, pids@.take(p as int), pids@[p as int]);
        }
        p = p + 1;
    }
    proof {
        assert(pids@.take(pids@.len() as int) =~= pids@);
        assert(pattern.deep_view() == names_body_state(
            *font,
            instance_mode,
            old(pattern).deep_view(),
        ).elems);
    }
    let ghost all0 = names_body_state(*font, instance_mode, old(pattern).deep_view()).elems;
    if !has_family_elem(pattern) {
        match file_stem(font_file) {
            None => {
                return Err(NameAddingError::NoFamilyName);
            },
            Some(stem) => {
                let ghost stemv = stem@;
                push_elem(
                    pattern,
                    PatternElement {
                        object: ObjectKey::Family,
                        value: AttributeValue::Text(stem),
                    },
                );
                let mut en: Vec<u8> = Vec::new();
                en.push(101);
                en.push(110);
                proof {
                    assert(en@ =~= en_tag());
                }
                push_elem(
                    pattern,
                    PatternElement {
                        object: ObjectKey::FamilyLang,
                        value: AttributeValue::Text(en),
                    },
                );
                proof {
                    assert(pattern.deep_view() =~= all0 + seq![
                        text_elem(ObjectKey::Family, stemv),
                        text_elem(ObjectKey::FamilyLang, en_tag()),
                    ]);
                }
            },
        }
    }
    let g = generic_of_pattern(pattern);
    push_elem(
        pattern,
        PatternElement { object: ObjectKey::GenericFamily, value: AttributeValue::Generic(g) },
    );
    proof {
        assert(pattern.deep_view() =~= add_names_elems(
            *font,
            font_file@,
            instance_mode,
            old(pattern).deep_view(),
        ));
    }
    Ok(())
}


/// Whether an element fills one of the name slots that deduplication
/// governs.
pub open spec fn is_name_elem(e: ElemView) -> bool {
    e.object == ObjectKey::Family || e.object == ObjectKey::Style || e.object
        == ObjectKey::FullName || e.object == ObjectKey::PostscriptName
}

/// The text of a text-valued element.
pub open spec fn text_of(e: ElemView) -> Seq<u8> {
    match e.value {
        ValueView::Text(v) => v,
        _ => Seq::empty(),
    }
}

/// No two name elements beyond `base` that fill the same slot carry
/// case/space-insensitively identical values.
pub open spec fn names_pairwise_distinct(s: Seq<ElemView>, base: int) -> bool {
    forall|i: int, j: int|
        base <= i < j < s.len() && is_name_elem(#[trigger] s[i]) && is_name_elem(#[trigger] s[j])
            && s[i].object == s[j].object ==> normalize_spec(text_of(s[i])) != normalize_spec(
            text_of(s[j]),
        )
}

/// Invariant of a resolution state: the name elements beyond `base` are
/// pairwise distinct per slot under normalization, and each one's key is
/// remembered.
pub open spec fn dedup_inv(st: NameState, base: int) -> bool {
    &&& names_pairwise_distinct(st.elems, base)
    &&& forall|i: int|
        base <= i < st.elems.len() && is_name_elem(#[trigger] st.elems[i]) ==> st.seen.contains(
            SeenV { object: st.elems[i].object, norm: normalize_spec(text_of(st.elems[i])) },
        )
}

proof fn lemma_step_dedup(
    font: FontHandle,
    mode: InstanceMode,
    st: NameState,
    rec: NameRecV,
    base: int,
)
    requires
        dedup_inv(st, base),
        0 <= base <= st.elems.len(),
    ensures
        dedup_inv(step_spec(font, mode, st, rec), base),
        st.elems.len() <= step_spec(font, mode, st, rec).elems.len(),
{
    let st1 = step_spec(font, mode, st, rec);
    match object_ids_spec(rec.name_id) {
        None => {},
        Some(ids) => {
            let name1 = mangled_name_spec(font, mode, rec.name_id, raw_name_spec(rec, ids.0));
            match name1 {
                None => {},
                Some(n) => {
                    let key = SeenV { object: ids.0, norm: normalize_spec(n) };
                    if n.len() == 0 || st.seen.contains(key) {
                    } else {
                        let lp: Seq<ElemView> = match ids.1 {
                            Some(lo) => seq![text_elem(lo, lang_norm_spec(rec.language))],
                            None => Seq::empty(),
                        };
                        let ll = st.elems.len() as int;
                        assert(st1.elems == st.elems + seq![text_elem(ids.0, n)] + lp);
                        assert(st1.elems[ll] == text_elem(ids.0, n));
                        assert forall|i: int| 0 <= i < ll implies st1.elems[i] == st.elems[i] by {
                            assert((st.elems + seq![text_elem(ids.0, n)])[i] == st.elems[i]);
                        }
                        assert forall|i: int| ll < i < st1.elems.len() implies !is_name_elem(
                            #[trigger] st1.elems[i],
                        ) by {
                            assert(i == ll + 1);
                            match ids.1 {
                                Some(lo) => {
                                    assert(st1.elems[i] == text_elem(
                                        lo,
                                        lang_norm_spec(rec.language),
                                    ));
                                },
                                None => {},
                            }
                        }
                        assert forall|x: SeenV| st.seen.contains(x) implies st1.seen.contains(
                            x,
                        ) by {
                            let w = choose|w: int| 0 <= w < st.seen.len() && st.seen[w] == x;
                            assert(st1.seen[w] == x);
                        }
                        assert(st1.seen[st.seen.len() as int] == key);
                        assert(st1.seen.contains(key));
                        assert(text_of(st1.elems[ll]) == n);
                        assert forall|i: int, j: int|
                            base <= i < j < st1.elems.len() && is_name_elem(
                                #[trigger] st1.elems[i],
                            ) && is_name_elem(#[trigger] st1.elems[j]) && st1.elems[i].object
                                == st1.elems[j].object implies normalize_spec(
                            text_of(st1.elems[i]),
                        ) != normalize_spec(text_of(st1.elems[j])) by {
                            if j < ll {
                            } else if j == ll {
                                assert(st1.elems[i] == st.elems[i]);
                                assert(st.seen.contains(
                                    SeenV {
                                        object: st.elems[i].object,
                                        norm: normalize_spec(text_of(st.elems[i])),
                                    },
                                ));
                                if normalize_spec(text_of(st1.elems[i])) == normalize_spec(
                                    text_of(st1.elems[j]),
                                ) {
                                    assert(SeenV {
                                        object: st.elems[i].object,
                                        norm: normalize_spec(text_of(st.elems[i])),
                                    } == key);
                                }
                            } else {
                                assert(!is_name_elem(st1.elems[j]));
                            }
                        }
                    }
                },
            }
        },
    }
}

proof fn lemma_fold_dedup(
    font: FontHandle,
    mode: InstanceMode,
    st: NameState,
    recs: Seq<NameRecV>,
    base: int,
)
    requires
        dedup_inv(st, base),
        0 <= base <= st.elems.len(),
    ensures
        dedup_inv(fold_records(font, mode, st, recs), base),
        st.elems.len() <= fold_records(font, mode, st, recs).elems.len(),
    decreases recs.len(),
{
    if recs.len() == 0 {
    } else {
        lemma_step_dedup(font, mode, st, recs[0], base);
        lemma_fold_dedup(font, mode, step_spec(font, mode, st, recs[0]), recs.drop_first(), base);
    }
}

/// Law of name deduplication: within one extraction pass, no two name
/// attributes of the same slot carry case/space-insensitively identical
/// values — a repeated value is dropped even when its language differs.
pub proof fn lemma_names_deduplicated(
    font: FontHandle,
    file: Seq<u8>,
    mode: InstanceMode,
    oldp: Seq<ElemView>,
)
    ensures
        names_pairwise_distinct(add_names_elems(font, file, mode, oldp), oldp.len() as int),
{
    let base = oldp.len() as int;
    let allf = add_names_elems(font, file, mode, oldp);
    if font.name_records is None {
    } else {
        let st0 = NameState { elems: oldp, seen: Seq::<SeenV>::empty() };
        assert(dedup_inv(st0, base));
        lemma_fold_dedup(font, mode, st0, reorder_rec(records_of(font), priority_ids()), base);
        let stb = names_body_state(font, mode, oldp);
        let all0 = stb.elems;
        assert(names_pairwise_distinct(all0, base));
        if !has_family_spec(all0) {
            match file_stem_spec(file) {
                None => {},
                Some(stem) => {
                    let all1 = all0 + seq![
                        text_elem(ObjectKey::Family, stem),
                        text_elem(ObjectKey::FamilyLang, en_tag()),
                    ];
                    let l0 = all0.len() as int;
                    assert forall|i: int, j: int|
                        base <= i < j < allf.len() && is_name_elem(#[trigger] allf[i])
                            && is_name_elem(#[trigger] allf[j]) && allf[i].object
                            == allf[j].object implies normalize_spec(text_of(allf[i]))
                        != normalize_spec(text_of(allf[j])) by {
                        if j < l0 {
                            assert(allf[i] == all0[i]);
                            assert(allf[j] == all0[j]);
                        } else if j == l0 {
                            assert(allf[j] == text_elem(ObjectKey::Family, stem));
                            assert(allf[i] == all0[i]);
                            assert(all0[i].object == ObjectKey::Family);
                            assert(has_family_spec(all0));
                        } else if j == l0 + 1 {
                            assert(allf[j] == text_elem(ObjectKey::FamilyLang, en_tag()));
                            assert(!is_name_elem(allf[j]));
                        } else {
                            assert(j == all1.len());
                            assert(allf[j] == generic_elem_of(all1));
                            assert(!is_name_elem(allf[j]));
                        }
                    }
                },
            }
        } else {
            assert forall|i: int, j: int|
                base <= i < j < allf.len() && is_name_elem(#[trigger] allf[i]) && is_name_elem(
                    #[trigger] allf[j],
                ) && allf[i].object == allf[j].object implies normalize_spec(text_of(allf[i]))
                != normalize_spec(text_of(allf[j])) by {
                if j < all0.len() {
                    assert(allf[i] == all0[i]);
                    assert(allf[j] == all0[j]);
                } else {
                    assert(j == all0.len());
                    assert(allf[j] == generic_elem_of(all0));
                    assert(!is_name_elem(allf[j]));
                }
            }
        }
    }
}

} // verus!
